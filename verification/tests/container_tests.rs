use nanopdf::colorspace::Colorspace;
use nanopdf::error::Error;
use nanopdf::geometry::IRect;
use nanopdf::image::Image;
use nanopdf::object::{Name, ObjRef, PdfString};
use nanopdf::pixmap::Pixmap;
use nanopdf::predictor::{
    FlateDecodeParams, apply_png_predictor_decode, apply_predictor_decode,
    apply_tiff_predictor_decode, decode_png_filter, paeth_predictor,
};
use nanopdf::stream::Stream;

// Stream tests
#[test]
fn stream_open_memory_reads_in_order() {
    let mut s = Stream::open_memory(&[1, 2, 3, 4, 5]);
    assert_eq!(s.len(), Some(5));
    assert!(!s.is_empty());
    assert_eq!(s.tell(), 0);
    assert_eq!(s.read_byte().unwrap(), Some(1));
    assert_eq!(s.tell(), 1);
    let two = s.read(2).unwrap();
    assert_eq!(two.as_slice(), &[2, 3]);
    assert_eq!(s.tell(), 3);
    let rest = s.read(10).unwrap();
    assert_eq!(rest.as_slice(), &[4, 5]);
    assert_eq!(s.read_byte().unwrap(), None);
}

#[test]
fn stream_read_exact_demands_enough_bytes() {
    let mut s = Stream::open_memory(&[7, 8, 9]);
    let v = s.read_exact(2).unwrap();
    assert_eq!(v.as_slice(), &[7, 8]);
    let e = s.read_exact(2);
    assert!(e.is_err());
    assert!(matches!(e, Err(Error::Eof)));
}

#[test]
fn stream_read_all_drains_the_stream() {
    let data = nanopdf::buffer::Buffer::from_slice(b"stream contents");
    let mut s = Stream::open_buffer(&data);
    assert_eq!(s.read_byte().unwrap(), Some(b's'));
    let rest = s.read_all(4).unwrap();
    assert_eq!(rest.as_slice(), b"tream contents");
    assert_eq!(s.read_byte().unwrap(), None);
}

#[test]
fn stream_empty_reports_empty() {
    let mut s = Stream::open_memory(&[]);
    assert!(s.is_empty());
    assert_eq!(s.len(), Some(0));
    assert_eq!(s.read_byte().unwrap(), None);
}

// Predictor tests
#[test]
fn paeth_prefers_closest_neighbour() {
    assert_eq!(paeth_predictor(0, 0, 0), 0);
    // p = 25: distances are 15 to a, 5 to b, 20 to c.
    assert_eq!(paeth_predictor(10, 20, 5), 20);
    // Ties prefer the left neighbour.
    assert_eq!(paeth_predictor(10, 10, 10), 10);
    assert_eq!(paeth_predictor(255, 0, 255), 0);
}

#[test]
fn tiff_decode_accumulates_per_pixel() {
    let decoded = apply_tiff_predictor_decode(&[1, 1, 1, 2, 2, 2], 3, 1).unwrap();
    assert_eq!(decoded, vec![1, 2, 3, 2, 4, 6]);
}

#[test]
fn tiff_decode_respects_pixel_width() {
    // Two-byte pixels: each byte accumulates against the byte one pixel back.
    let decoded = apply_tiff_predictor_decode(&[1, 2, 1, 2], 4, 2).unwrap();
    assert_eq!(decoded, vec![1, 2, 2, 4]);
}

#[test]
fn png_decode_sub_and_up_rows() {
    // Row 1 uses the "sub" filter, row 2 the "up" filter.
    let data = [1, 5, 5, 5, 2, 1, 1, 1];
    let decoded = apply_png_predictor_decode(&data, 3, 1).unwrap();
    assert_eq!(decoded, vec![5, 10, 15, 6, 11, 16]);
}

#[test]
fn png_decode_average_and_paeth_rows() {
    let data = [3, 10, 10, 10, 4, 1, 1, 1];
    let decoded = apply_png_predictor_decode(&data, 3, 1).unwrap();
    // Average row: 10, 10+5, 10+(15+0)/2 rounded down.
    assert_eq!(&decoded[..3], &[10, 15, 17]);
    assert_eq!(decoded.len(), 6);
}

#[test]
fn png_decode_rejects_unknown_filter() {
    let data = [9, 1, 1, 1];
    let r = apply_png_predictor_decode(&data, 3, 1);
    assert!(matches!(r, Err(Error::Generic(_))));
}

#[test]
fn png_filter_row_rejects_bad_type() {
    let mut out: Vec<u8> = vec![42];
    let r = decode_png_filter(7, &[1, 2, 3], &[], 1, &mut out);
    assert!(r.is_err());
    assert_eq!(out, vec![42]);
}

#[test]
fn png_filter_none_copies_row() {
    let mut out: Vec<u8> = Vec::new();
    decode_png_filter(0, &[9, 8, 7], &[1, 1, 1], 1, &mut out).unwrap();
    assert_eq!(out, vec![9, 8, 7]);
}

#[test]
fn predictor_dispatch() {
    let identity = FlateDecodeParams { predictor: 1, colors: 1, bits_per_component: 8, columns: 3 };
    assert_eq!(apply_predictor_decode(&[4, 5, 6], &identity).unwrap(), vec![4, 5, 6]);

    let tiff = FlateDecodeParams { predictor: 2, colors: 3, bits_per_component: 8, columns: 2 };
    assert_eq!(
        apply_predictor_decode(&[1, 1, 1, 2, 2, 2], &tiff).unwrap(),
        vec![1, 1, 1, 3, 3, 3]
    );

    let png = FlateDecodeParams { predictor: 10, colors: 1, bits_per_component: 8, columns: 3 };
    assert_eq!(
        apply_predictor_decode(&[1, 5, 5, 5], &png).unwrap(),
        vec![5, 10, 15]
    );

    let unsupported = FlateDecodeParams {
        predictor: 7,
        colors: 1,
        bits_per_component: 8,
        columns: 1,
    };
    assert!(matches!(
        apply_predictor_decode(&[1], &unsupported),
        Err(Error::Generic(_))
    ));
}

#[test]
fn predictor_params_default() {
    let p = FlateDecodeParams::default();
    assert_eq!(p.predictor, 1);
    assert_eq!(p.colors, 1);
    assert_eq!(p.bits_per_component, 8);
    assert_eq!(p.columns, 1);
}

// Geometry tests
#[test]
fn irect_dimensions() {
    let r = IRect::new(2, 3, 12, 8);
    assert_eq!(r.width(), 10);
    assert_eq!(r.height(), 5);
    assert!(!r.is_empty());
    let e = IRect::new(5, 5, 5, 9);
    assert!(e.is_empty());
}

// Colorspace tests
#[test]
fn device_colorspaces() {
    let gray = Colorspace::device_gray();
    assert_eq!(gray.name(), "DeviceGray");
    assert_eq!(gray.n(), 1);
    let rgb = Colorspace::device_rgb();
    assert_eq!(rgb.name(), "DeviceRGB");
    assert_eq!(rgb.n(), 3);
    let cmyk = Colorspace::device_cmyk();
    assert_eq!(cmyk.name(), "DeviceCMYK");
    assert_eq!(cmyk.n(), 4);
}

// Object tests
#[test]
fn pdf_object_primitives() {
    let n = Name::new("Type");
    assert_eq!(n.0, "Type");
    let s = PdfString::new(vec![0x28, 0x29]);
    assert_eq!(s.as_bytes(), &[0x28, 0x29]);
    let r = ObjRef::new(12, 0);
    assert_eq!(r.num, 12);
    assert_eq!(r.generation, 0);
    assert_eq!(r, ObjRef::new(12, 0));
}

// Pixmap and image tests
#[test]
fn pixmap_allocation_and_pixels() {
    let mut p = Pixmap::new(Some(Colorspace::device_rgb()), 2, 2, false).unwrap();
    assert_eq!(p.width(), 2);
    assert_eq!(p.height(), 2);
    assert_eq!(p.n(), 3);
    assert!(!p.has_alpha());
    assert_eq!(p.stride(), 6);
    assert_eq!(p.samples().len(), 12);
    assert_eq!(p.get_pixel(0, 0).unwrap(), vec![0, 0, 0]);
    p.clear(9);
    assert_eq!(p.get_pixel(1, 1).unwrap(), vec![9, 9, 9]);
    assert!(p.get_pixel(2, 0).is_none());
    assert!(p.get_pixel(0, -1).is_none());
}

#[test]
fn pixmap_rejects_bad_arguments() {
    assert!(matches!(
        Pixmap::new(Some(Colorspace::device_gray()), 0, 4, false),
        Err(Error::Argument(_))
    ));
    assert!(matches!(Pixmap::new(None, 4, 4, false), Err(Error::Argument(_))));
    // Alpha alone is enough for a single-component pixmap.
    let p = Pixmap::new(None, 4, 4, true).unwrap();
    assert_eq!(p.n(), 1);
    assert!(p.has_alpha());
    assert!(p.colorspace().is_none());
}

#[test]
fn image_accessors() {
    let img = Image::new(640, 480, None);
    assert_eq!(img.width(), 640);
    assert_eq!(img.height(), 480);
    assert!(img.pixmap().is_none());
    let pix = Pixmap::new(Some(Colorspace::device_gray()), 1, 1, false).unwrap();
    let img2 = Image::new(1, 1, Some(pix));
    assert!(img2.pixmap().is_some());
}
