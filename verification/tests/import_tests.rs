use std::io::{Cursor, Write};

use llmchat::files::{classify_extension, file_kind, import_file, import_named, lowercase_extension, MAX_TEXT};
use llmchat::imaging::encode_rgba_png;
use llmchat::imaging::{data_uri_bytes, image_data_uri};
use llmchat::pdf::pdf_stream_to_data_uri;
use llmchat::types::AttachmentKind;
use lopdf::{Dictionary, Document, Object, Stream};

#[test]
fn classifies_by_extension() {
    assert_eq!(classify_extension("png"), AttachmentKind::Image);
    assert_eq!(classify_extension("tif"), AttachmentKind::Image);
    assert_eq!(classify_extension("pdf"), AttachmentKind::Pdf);
    assert_eq!(classify_extension("epub"), AttachmentKind::Epub);
    assert_eq!(classify_extension("yml"), AttachmentKind::Text);
    assert_eq!(classify_extension("exe"), AttachmentKind::Other);
    assert_eq!(classify_extension(""), AttachmentKind::Other);
    assert_eq!(file_kind("/tmp/Foto.JPG"), AttachmentKind::Image);
    assert_eq!(file_kind("/tmp/notas"), AttachmentKind::Other);
}

#[test]
fn imports_text_files() {
    let imp = import_file("/tmp/notas.md", Ok(b"# hola\nmundo".to_vec())).unwrap();
    assert_eq!(imp.attachments.len(), 1);
    let a = &imp.attachments[0];
    assert_eq!(a.kind, AttachmentKind::Text);
    assert_eq!(a.name, "notas.md");
    assert_eq!(a.summary, "Texto: notas.md");
    assert!(a.image_file.is_none() && a.image_data.is_none());
    assert_eq!(imp.extracted_text.as_deref(), Some("# hola\nmundo"));
}

#[test]
fn cuts_long_text_files() {
    let body = "b".repeat(MAX_TEXT + 10);
    let imp = import_named("x.txt", "txt", "/x.txt", Ok(body.into_bytes())).unwrap();
    let text = imp.extracted_text.unwrap();
    assert_eq!(text.chars().count(), MAX_TEXT + "\n\n[... extracto truncado ...]".chars().count());
    assert!(text.ends_with("[... extracto truncado ...]"));
}

#[test]
fn reports_unreadable_files() {
    assert_eq!(
        import_named("x.txt", "txt", "/x.txt", Err("permiso denegado".to_string())).err(),
        Some("No se pudo leer el archivo: permiso denegado".to_string())
    );
    assert_eq!(
        import_named("x.txt", "txt", "/x.txt", Ok(vec![0xff, 0xfe])).err(),
        Some("No se pudo leer el archivo: stream did not contain valid UTF-8".to_string())
    );
    assert_eq!(
        import_named("x.pdf", "pdf", "/x.pdf", Err("no existe".to_string())).err(),
        Some("No se pudo leer el PDF: no existe".to_string())
    );
    let e = import_named("x.pdf", "pdf", "/x.pdf", Ok(b"not a pdf".to_vec())).err().unwrap();
    assert!(e.starts_with("No se pudo leer el PDF: "));
    let e = import_named("x.png", "png", "/x.png", Ok(vec![1, 2, 3])).err().unwrap();
    assert!(e.starts_with("No se pudo leer la imagen: "));
    let e = import_named("x.epub", "epub", "/x.epub", Ok(vec![1, 2, 3])).err().unwrap();
    assert!(e.starts_with("No se pudo leer el EPUB: "));
}

#[test]
fn imports_unknown_files_without_reading_them() {
    let imp = import_named("a.bin", "bin", "/a.bin", Err("no leído".to_string())).unwrap();
    assert_eq!(imp.attachments.len(), 1);
    assert_eq!(imp.attachments[0].kind, AttachmentKind::Other);
    assert_eq!(imp.attachments[0].summary, "Archivo: a.bin");
    assert!(imp.extracted_text.is_none());
}

#[test]
fn imports_images_as_png_uris() {
    let png = data_uri_bytes(&encode_rgba_png(2, 2, &[1, 2, 3, 4], 1).unwrap()).unwrap();
    let imp = import_named("f.png", "png", "/fotos/f.png", Ok(png)).unwrap();
    let a = &imp.attachments[0];
    assert_eq!(a.kind, AttachmentKind::Image);
    assert_eq!(a.summary, "Imagen: f.png");
    assert_eq!(a.image_file.as_deref(), Some("/fotos/f.png"));
    assert!(a.image_data.as_ref().unwrap().starts_with("data:image/png;base64,"));
    assert!(imp.extracted_text.is_none());
}

fn name(n: &str) -> Object {
    Object::Name(n.as_bytes().to_vec())
}

/// A one-page PDF whose page shows `content`, with these extra image streams.
fn sample_pdf(content: &[u8], images: Vec<(Dictionary, Vec<u8>)>) -> Vec<u8> {
    let mut doc = Document::with_version("1.5");
    let pages_id = doc.new_object_id();
    let content_id = doc.add_object(Stream::new(Dictionary::new(), content.to_vec()));
    let mut page = Dictionary::new();
    page.set("Type", name("Page"));
    page.set("Parent", Object::Reference(pages_id));
    page.set("Contents", Object::Reference(content_id));
    let page_id = doc.add_object(page);
    let mut pages = Dictionary::new();
    pages.set("Type", name("Pages"));
    pages.set("Kids", Object::Array(vec![Object::Reference(page_id)]));
    pages.set("Count", Object::Integer(1));
    doc.objects.insert(pages_id, Object::Dictionary(pages));
    for (dict, data) in images {
        doc.add_object(Stream::new(dict, data));
    }
    let mut catalog = Dictionary::new();
    catalog.set("Type", name("Catalog"));
    catalog.set("Pages", Object::Reference(pages_id));
    let catalog_id = doc.add_object(catalog);
    doc.trailer.set("Root", Object::Reference(catalog_id));
    let mut bytes = Vec::new();
    doc.save_to(&mut bytes).unwrap();
    bytes
}

fn image_dict(w: i64, h: i64, colorspace: Option<&str>) -> Dictionary {
    let mut d = Dictionary::new();
    d.set("Type", name("XObject"));
    d.set("Subtype", name("Image"));
    d.set("Width", Object::Integer(w));
    d.set("Height", Object::Integer(h));
    d.set("BitsPerComponent", Object::Integer(8));
    if let Some(cs) = colorspace {
        d.set("ColorSpace", name(cs));
    }
    d
}

#[test]
fn imports_pdf_text_and_images() {
    let pdf = sample_pdf(
        b"BT /F1 12 Tf (Hola) Tj (mundo) Tj ET",
        vec![(image_dict(2, 1, None), vec![255, 0, 0, 0, 0, 255])],
    );
    let imp = import_named("doc.pdf", "pdf", "/doc.pdf", Ok(pdf)).unwrap();
    assert_eq!(imp.extracted_text.as_deref(), Some("Hola mundo\n"));
    assert_eq!(imp.attachments.len(), 2);
    assert_eq!(imp.attachments[0].kind, AttachmentKind::Pdf);
    assert_eq!(imp.attachments[0].summary, "PDF: doc.pdf");
    let img = &imp.attachments[1];
    assert_eq!(img.kind, AttachmentKind::Image);
    assert_eq!(img.name, "doc.pdf - imagen 1");
    assert_eq!(img.summary, "Imagen: doc.pdf (1)");
    let png = data_uri_bytes(img.image_data.as_ref().unwrap()).unwrap();
    let decoded = image::load_from_memory(&png).unwrap().to_rgba8();
    assert_eq!(decoded.get_pixel(0, 0).0, [255, 0, 0, 255]);
    assert_eq!(decoded.get_pixel(1, 0).0, [0, 0, 255, 255]);
}

#[test]
fn converts_named_colour_spaces_and_skips_what_it_cannot() {
    // Gray and CMYK named colour spaces are converted; a stream too small for
    // its dimensions, or with no width, fails; the text still comes out.
    let pdf = sample_pdf(
        b"(solo texto) Tj",
        vec![
            (image_dict(2, 1, Some("DeviceGray")), vec![0, 255]),
            (image_dict(4, 4, None), vec![1, 2, 3]),
            (image_dict(0, 4, None), vec![]),
            (image_dict(1, 1, Some("DeviceCMYK")), vec![0, 255, 0, 0]),
            (image_dict(1, 1, Some("Lab")), vec![1, 2, 3]),
        ],
    );
    let imp = import_named("d.pdf", "pdf", "/d.pdf", Ok(pdf)).unwrap();
    assert_eq!(imp.extracted_text.as_deref(), Some("solo texto\n"));
    assert_eq!(imp.attachments.len(), 3);
    let gray = data_uri_bytes(imp.attachments[1].image_data.as_ref().unwrap()).unwrap();
    let gray = image::load_from_memory(&gray).unwrap().to_rgba8();
    assert_eq!(gray.get_pixel(0, 0).0, [0, 0, 0, 255]);
    assert_eq!(gray.get_pixel(1, 0).0, [255, 255, 255, 255]);
    let cmyk = data_uri_bytes(imp.attachments[2].image_data.as_ref().unwrap()).unwrap();
    let cmyk = image::load_from_memory(&cmyk).unwrap().to_rgba8();
    assert_eq!(cmyk.get_pixel(0, 0).0, [255, 0, 255, 255]);
}

#[test]
fn keeps_jpeg_streams_as_they_are() {
    let mut dict = image_dict(2, 2, None);
    dict.set("Filter", name("DCTDecode"));
    let pdf = sample_pdf(b"", vec![(dict, vec![0xff, 0xd8, 0xff, 0xd9])]);
    let imp = import_named("j.pdf", "pdf", "/j.pdf", Ok(pdf)).unwrap();
    assert_eq!(imp.attachments.len(), 2);
    let uri = imp.attachments[1].image_data.as_ref().unwrap();
    assert!(uri.starts_with("data:image/jpeg;base64,"));
    assert_eq!(data_uri_bytes(uri).unwrap(), vec![0xff, 0xd8, 0xff, 0xd9]);
}

fn sample_epub(entries: &[(&str, &str)]) -> Vec<u8> {
    let mut w = zip::ZipWriter::new(Cursor::new(Vec::new()));
    for (n, body) in entries {
        w.start_file(*n, zip::write::SimpleFileOptions::default()).unwrap();
        w.write_all(body.as_bytes()).unwrap();
    }
    w.finish().unwrap().into_inner()
}

#[test]
fn imports_epub_chapters() {
    let epub = sample_epub(&[
        ("mimetype", "application/epub+zip"),
        ("OEBPS/cap1.XHTML", "<html><body><p>Érase una vez</p></body></html>"),
        ("OEBPS/style.css", "p { color: red }"),
        ("OEBPS/cap2.htm", "<p>fin &amp; adiós</p>"),
    ]);
    let imp = import_named("libro.epub", "epub", "/libro.epub", Ok(epub)).unwrap();
    assert_eq!(imp.attachments.len(), 1);
    assert_eq!(imp.attachments[0].summary, "EPUB: libro.epub");
    assert_eq!(imp.extracted_text.as_deref(), Some("Érase una vez\nfin & adiós\n"));
}

#[test]
fn refuses_epubs_without_text() {
    let epub = sample_epub(&[("a.xhtml", "<p>  </p>"), ("b.txt", "texto")]);
    assert_eq!(
        import_named("v.epub", "epub", "/v.epub", Ok(epub)).err(),
        Some("No se pudo leer el EPUB: no se encontró texto en el EPUB (XHTML)".to_string())
    );
}

#[test]
fn lowercases_the_extension_of_plain_names() {
    assert_eq!(lowercase_extension("Foto.JPG"), "jpg");
    assert_eq!(lowercase_extension("archivo.tar.GZ"), "gz");
    assert_eq!(lowercase_extension(".bashrc"), "");
    assert_eq!(lowercase_extension("sin_extension"), "");
    assert_eq!(lowercase_extension("punto."), "");
    assert_eq!(lowercase_extension("/tmp/dir/Notas.MD"), "md");
}

#[test]
fn names_and_classifies_plain_file_names() {
    let imp = import_file("NOTES.TXT", Ok(b"hola".to_vec())).unwrap();
    assert_eq!(imp.attachments.len(), 1);
    assert_eq!(imp.attachments[0].kind, AttachmentKind::Text);
    assert_eq!(imp.attachments[0].name, "NOTES.TXT");
    assert_eq!(imp.attachments[0].summary, "Texto: NOTES.TXT");
    assert_eq!(imp.extracted_text.as_deref(), Some("hola"));
    let imp = import_file("Informe.docx", Err("no leído".to_string())).unwrap();
    assert_eq!(imp.attachments[0].kind, AttachmentKind::Other);
    assert_eq!(imp.attachments[0].summary, "Archivo: Informe.docx");
}

#[test]
fn refuses_unknown_image_formats() {
    assert_eq!(
        image_data_uri(&[1, 2, 3], "xyz"),
        Err("The image format could not be determined".to_string())
    );
}

#[test]
fn converts_flate_gray_streams_to_png() {
    // [0, 255] as a zlib stream with one stored block.
    let zlib = vec![0x78, 0x01, 0x01, 0x02, 0x00, 0xfd, 0xff, 0x00, 0xff, 0x01, 0x01, 0x01, 0x00];
    let mut dict = image_dict(2, 1, Some("DeviceGray"));
    dict.set("Filter", name("FlateDecode"));
    let uri = pdf_stream_to_data_uri(&Stream::new(dict, zlib)).unwrap();
    assert!(uri.starts_with("data:image/png;base64,"));
    let png = data_uri_bytes(&uri).unwrap();
    let img = image::load_from_memory(&png).unwrap().to_rgba8();
    assert_eq!((img.width(), img.height()), (2, 1));
    assert_eq!(img.get_pixel(0, 0).0, [0, 0, 0, 255]);
    assert_eq!(img.get_pixel(1, 0).0, [255, 255, 255, 255]);
}

#[test]
fn reports_streams_that_cannot_be_converted() {
    let mut dict = image_dict(2, 2, None);
    dict.set("Filter", name("JPXDecode"));
    assert_eq!(
        pdf_stream_to_data_uri(&Stream::new(dict, vec![1, 2, 3])),
        Err("JPEG2000 no soportado".to_string())
    );
    assert_eq!(
        pdf_stream_to_data_uri(&Stream::new(image_dict(2, 2, None), vec![1, 2, 3])),
        Err("datos insuficientes: 3 < 12".to_string())
    );
    assert_eq!(
        pdf_stream_to_data_uri(&Stream::new(image_dict(1, 1, Some("Lab")), vec![1, 2, 3])),
        Err("espacio de color no soportado".to_string())
    );
}

#[test]
fn names_and_classifies_files_in_directories() {
    assert_eq!(file_kind("docs/informes/Q3.PDF"), AttachmentKind::Pdf);
    assert_eq!(file_kind("/home/ana/.bashrc"), AttachmentKind::Other);
    let imp = import_file("/home/ana/notas/Lista.TXT", Ok(b"leche".to_vec())).unwrap();
    assert_eq!(imp.attachments[0].kind, AttachmentKind::Text);
    assert_eq!(imp.attachments[0].name, "Lista.TXT");
    assert_eq!(imp.attachments[0].summary, "Texto: Lista.TXT");
    assert_eq!(imp.extracted_text.as_deref(), Some("leche"));
}

#[test]
fn takes_at_most_twenty_images_from_a_pdf() {
    let images = (0..25u8).map(|i| (image_dict(1, 1, Some("DeviceGray")), vec![i])).collect();
    let pdf = sample_pdf(b"(x) Tj", images);
    let imp = import_named("m.pdf", "pdf", "/m.pdf", Ok(pdf)).unwrap();
    assert_eq!(imp.attachments.len(), 21);
    assert_eq!(imp.attachments[20].name, "m.pdf - imagen 20");
    let first = data_uri_bytes(imp.attachments[1].image_data.as_ref().unwrap()).unwrap();
    let first = image::load_from_memory(&first).unwrap().to_rgba8();
    assert_eq!(first.get_pixel(0, 0).0, [0, 0, 0, 255]);
}
