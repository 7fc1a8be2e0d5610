use hera::engine::HDCEngine;
use hera::ingest::{
    extension, format_for, ingest_bytes, ingest_pdf, regex_remove, source_format_of, url_source, Format,
    IngestError, IngestedDoc, CHUNK_WORDS,
};
use hera::text::chunk_text;

fn pdf_reading(bytes: &[u8], source: &str) -> Option<Result<String, String>> {
    if source_format_of(source) == Format::Pdf {
        Some(pdf_extract::extract_text_from_mem(bytes).map_err(|e| e.to_string()))
    } else {
        None
    }
}

fn ok(bytes: &[u8], source: &str) -> IngestedDoc {
    match ingest_bytes(bytes, source, pdf_reading(bytes, source)) {
        Ok(d) => d,
        Err(e) => panic!("ingestion failed: {}", e.message()),
    }
}

fn err(bytes: &[u8], source: &str) -> IngestError {
    match ingest_bytes(bytes, source, pdf_reading(bytes, source)) {
        Ok(d) => panic!("ingestion succeeded with {:?}", d.text),
        Err(e) => e,
    }
}

#[test]
fn extension_of_paths() {
    assert_eq!(extension("a/b.TXT"), "TXT");
    assert_eq!(extension(".bashrc"), "");
    assert_eq!(extension("archive.tar.gz"), "gz");
    assert_eq!(extension("noext"), "");
    assert_eq!(extension("dir.d/file"), "");
    assert_eq!(extension("x/.."), "");
    assert_eq!(extension("dir/file.txt/"), "txt");
    assert_eq!(extension("a/./"), "");
    assert_eq!(extension("https://example.com/page.html"), "html");
    assert_eq!(extension("https://example.com"), "com");
    assert_eq!(extension(""), "");
}

#[test]
fn formats_by_extension() {
    assert!(format_for(&"pdf".to_string()) == Format::Pdf);
    assert!(format_for(&"xls".to_string()) == Format::Spreadsheet);
    assert!(format_for(&"htm".to_string()) == Format::Html);
    assert!(format_for(&"markdown".to_string()) == Format::Markdown);
    assert!(format_for(&"log".to_string()) == Format::Plain);
    assert!(format_for(&"cpp".to_string()) == Format::Code);
    assert!(format_for(&"webp".to_string()) == Format::Image);
    assert!(format_for(&"flac".to_string()) == Format::Audio);
    assert!(format_for(&"PDF".to_string()) == Format::Unknown);
    assert!(format_for(&"".to_string()) == Format::Unknown);
}

#[test]
fn plain_text_is_cleaned() {
    let d = ok(b"Hello   world\n\nagain\t!", "notes.txt");
    assert_eq!(d.text, "Hello world again!");
    assert_eq!(d.source, "notes.txt");
    assert_eq!(d.mime, "text/plain");
    assert_eq!(d.chunks, vec!["Hello world again!".to_string()]);
}

#[test]
fn invalid_utf8_in_text_is_replaced() {
    let d = ok(&[b'a', 0xff, b'b'], "x.txt");
    assert_eq!(d.text, "a\u{FFFD}b");
}

#[test]
fn extension_case_is_ignored() {
    let d = ok(b"# Title", "README.MD");
    assert_eq!(d.mime, "text/markdown");
    assert_eq!(d.text, "# Title");
    assert_eq!(ok(b"fn main() {}", "src/main.rs").mime, "text/code");
    assert_eq!(ok(b"line", "app.LOG").mime, "text/plain");
}

#[test]
fn csv_rows_become_tab_separated_lines() {
    let d = ok(b"name,age\nann,30\nbob,41\n", "people.csv");
    assert_eq!(d.text, "name\tage\nann\t30\nbob\t41\n");
    assert_eq!(d.mime, "text/csv");
    assert_eq!(d.chunks, vec!["name\tage\nann\t30\nbob\t41".to_string()]);
}

#[test]
fn csv_records_that_fail_are_skipped() {
    let d = ok(b"a,b\n1,2\n3\n4,5\n", "t.csv");
    assert_eq!(d.text, "a\tb\n1\t2\n4\t5\n");
}

#[test]
fn json_is_flattened_to_paths() {
    let d = ok(br#"{"b":1,"a":{"c":[true,"x"]}}"#, "data.json");
    assert_eq!(d.text, "a.c[0]: true\na.c[1]: \"x\"\nb: 1");
    assert_eq!(d.mime, "application/json");
}

#[test]
fn json_scalar_at_top_level() {
    let d = ok(b"42", "n.json");
    assert_eq!(d.text, ": 42");
}

#[test]
fn invalid_json_is_an_error() {
    let e = err(b"{not json", "bad.json");
    assert!(matches!(e, IngestError::Json(_)));
    assert!(e.message().starts_with("JSON error: "));
}

#[test]
fn xml_tags_are_removed() {
    let d = ok(b"<a>Hi <b>there</b></a>", "doc.xml");
    assert_eq!(d.text, "Hi there");
    assert_eq!(d.mime, "application/xml");
}

#[test]
fn xml_must_be_utf8() {
    let e = err(&[b'<', 0xff, b'>'], "doc.xml");
    assert!(matches!(e, IngestError::XmlUtf8(_)));
    assert!(e.message().starts_with("XML UTF-8: "));
}

#[test]
fn html_scripts_styles_and_tags_are_removed() {
    let page = b"<html><head><style>p{color:red}</style></head><body><p>Hello <i>web</i></p><script>var x = 1;</script></body></html>";
    let d = ok(page, "page.HTML");
    assert_eq!(d.text, "Hello web");
    assert_eq!(d.mime, "text/html");
}

#[test]
fn html_must_be_utf8() {
    let e = err(&[0xc3], "p.htm");
    assert!(matches!(e, IngestError::HtmlUtf8(_)));
}

#[test]
fn regex_removal() {
    let p = "(?s)<(script|style)[^>]*>.*?</(script|style)>";
    assert_eq!(regex_remove("a<script>x\ny</script>b", p), "a b");
    // A pattern that does not compile leaves the text as it is.
    assert_eq!(regex_remove("a(b", "("), "a(b");
}

#[test]
fn images_and_audio_are_acknowledged() {
    let d = ok(&[1, 2, 3], "Photo.JPG");
    assert_eq!(
        d.text,
        "[Image: 3 bytes from Photo.JPG. Connect Tesseract OCR or an OCR endpoint to extract text.]"
    );
    assert_eq!(d.mime, "image/*");
    assert_eq!(d.chunks.len(), 1);
    let a = ok(&[0, 0, 0, 0], "song.mp3");
    assert_eq!(a.text, "[Audio: 4 bytes from song.mp3. Connect whisper.cpp to transcribe.]");
    assert_eq!(a.mime, "audio/*");
}

#[test]
fn unknown_binary_is_summarised() {
    let d = ok(&[0xff, 0xfe, 0x00], "blob.bin");
    assert_eq!(d.text, "[Binary data: 3 bytes from blob.bin]");
    assert_eq!(d.mime, "application/octet-stream");
}

#[test]
fn unknown_text_is_read_as_plain_text() {
    let d = ok(b"hi  there", "notes");
    assert_eq!(d.text, "hi there");
    assert_eq!(d.mime, "text/plain");
}

#[test]
fn empty_text_has_no_chunks() {
    let d = ok(b"   ", "blank.txt");
    assert_eq!(d.text, "");
    assert!(d.chunks.is_empty());
}

#[test]
fn long_text_is_chunked_with_overlap() {
    let words: Vec<String> = (0..600).map(|i| format!("w{}", i)).collect();
    let text = words.join(" ");
    let d = ok(text.as_bytes(), "long.txt");
    assert_eq!(CHUNK_WORDS, 512);
    assert_eq!(d.chunks.len(), 2);
    assert_eq!(d.chunks[0], words[0..512].join(" "));
    // overlap 102, step 410
    assert_eq!(d.chunks[1], words[410..600].join(" "));
    assert_eq!(d.chunks, chunk_text(&text, 512));
}

#[test]
fn broken_binary_formats_are_errors() {
    assert!(matches!(err(b"not a pdf", "x.pdf"), IngestError::Pdf(_)));
    assert!(matches!(err(b"not a zip", "x.docx"), IngestError::DocxOpen(_)));
    assert!(matches!(err(b"not a zip", "x.xlsx"), IngestError::Xlsx(_)));
    assert!(err(b"not a pdf", "x.pdf").message().starts_with("PDF error: "));
    assert!(err(b"not a zip", "x.docx").message().starts_with("DOCX error: "));
    assert!(err(b"not a zip", "x.xls").message().starts_with("XLSX error: "));
}

#[test]
fn pdf_readings_are_handed_over() {
    match ingest_pdf(Ok("  Page\n one ".to_string()), "a.pdf") {
        Ok(d) => {
            assert_eq!(d.text, "Page one");
            assert_eq!(d.mime, "application/pdf");
        }
        Err(_) => panic!("expected a document"),
    }
    match ingest_pdf(Err("bad header".to_string()), "a.pdf") {
        Err(e) => assert_eq!(e.message(), "PDF error: bad header"),
        Ok(_) => panic!("expected an error"),
    }
    // The reading is only used for PDF sources.
    match ingest_bytes(b"plain", "a.txt", Some(Err("unused".to_string()))) {
        Ok(d) => assert_eq!(d.text, "plain"),
        Err(_) => panic!("expected a document"),
    }
    assert!(source_format_of("Report.PDF") == Format::Pdf);
    assert!(source_format_of("notes") == Format::Unknown);
}

#[test]
fn error_messages() {
    assert_eq!(IngestError::Read("gone".to_string()).message(), "Read error: gone");
    assert_eq!(IngestError::DocxParse("p".to_string()).message(), "DOCX parse: p");
    assert_eq!(IngestError::HtmlUtf8("u".to_string()).message(), "HTML UTF-8: u");
    assert_eq!(IngestError::Fetch("timeout".to_string()).message(), "URL error: timeout");
}

#[test]
fn url_sources() {
    assert_eq!(url_source("https://example.com/a.pdf"), "https://example.com/a.pdf");
    assert_eq!(url_source("http://localhost:8080/page"), "http://localhost:8080/page.html");
}

#[test]
fn ingested_chunks_become_documents() {
    let words: Vec<String> = (0..600).map(|i| format!("w{}", i)).collect();
    let d = IngestedDoc::new(words.join(" "), "long.txt".to_string(), "text/plain".to_string());
    let mut e = HDCEngine::new();
    e.add_document("first".to_string(), "already here", "x", "y", "z");
    let uuids = vec!["u0".to_string(), "u1".to_string()];
    let ids = e.add_ingested(&d, &uuids, "books", "long.txt");
    assert_eq!(ids, vec!["u0-0".to_string(), "u1-1".to_string()]);
    assert_eq!(e.doc_count(), 3);
    assert_eq!(e.docs[0].id, "first");
    assert_eq!(e.docs[2].id, "u1-1");
    assert_eq!(e.docs[2].text, d.chunks[1]);
    assert_eq!(e.docs[2].label, "books");
    assert_eq!(e.docs[2].source, "long.txt");
    assert_eq!(e.docs[2].mime, "text/plain");
}

fn tiny_pdf(text: &str) -> Vec<u8> {
    let content = format!("BT /F1 18 Tf 10 100 Td ({}) Tj ET", text);
    let objects = vec![
        "<< /Type /Catalog /Pages 2 0 R >>".to_string(),
        "<< /Type /Pages /Kids [3 0 R] /Count 1 >>".to_string(),
        "<< /Type /Page /Parent 2 0 R /MediaBox [0 0 300 144] /Contents 4 0 R /Resources << /Font << /F1 5 0 R >> >> >>".to_string(),
        format!("<< /Length {} >>\nstream\n{}\nendstream", content.len(), content),
        "<< /Type /Font /Subtype /Type1 /BaseFont /Helvetica >>".to_string(),
    ];
    let mut out = String::from("%PDF-1.4\n");
    let mut offsets = Vec::new();
    for (i, o) in objects.iter().enumerate() {
        offsets.push(out.len());
        out.push_str(&format!("{} 0 obj\n{}\nendobj\n", i + 1, o));
    }
    let xref = out.len();
    out.push_str(&format!("xref\n0 {}\n0000000000 65535 f \n", objects.len() + 1));
    for off in &offsets {
        out.push_str(&format!("{:010} 00000 n \n", off));
    }
    out.push_str(&format!(
        "trailer\n<< /Size {} /Root 1 0 R >>\nstartxref\n{}\n%%EOF\n",
        objects.len() + 1,
        xref
    ));
    out.into_bytes()
}

#[test]
fn pdf_text_is_extracted_and_cleaned() {
    let d = ok(&tiny_pdf("Hello PDF world"), "tiny.pdf");
    assert_eq!(d.mime, "application/pdf");
    assert_eq!(d.text, "Hello PDF world");
}
