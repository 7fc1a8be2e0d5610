//! Document ingestion: bytes and a file name or URL in, cleaned text split
//! into chunks out, with the reader chosen by the name's extension.

use vstd::prelude::*;
use crate::text::{str_chars, str_to_lowercase, lowercase, slice_to_string, string_push, push_decimal, decimal, clean_text, clean_spec, strip_tags,
    strip_scan, chunk_text, chunk_spec, strings_view, push_joined, join_sep};
use crate::engine::{HDCEngine, encode_spec, encode_vocab};
use crate::formats::{docx_blocks, docx_blocks_of, DocBlock, DocInline,
    DocRunItem, DocxFailure, DocxStage, xlsx_sheets, xlsx_sheets_of, Sheet, csv_table, csv_table_of, CsvTable,
    json_tree, json_tree_of, JsonNode, regex_replace_all, regex_replaced, script_style_regex, tagged_text, string_from_utf8_lossy,
    utf8_lossy, str_from_utf8};

verus! {

/// Number of words per chunk.
pub const CHUNK_WORDS: usize = 512;

/// An ingested document: its text, origin, MIME type, and the text split into
/// overlapping chunks.
pub struct IngestedDoc {
    pub text: String,
    pub source: String,
    pub mime: String,
    /// The text split by `chunk_text` into chunks of `CHUNK_WORDS` words.
    pub chunks: Vec<String>,
}

/// `d` holds the text, source and MIME type given, and the text's chunks.
pub open spec fn doc_fields(d: IngestedDoc, text: Seq<char>, source: Seq<char>, mime: Seq<char>) -> bool {
    &&& d.text@ == text
    &&& d.source@ == source
    &&& d.mime@ == mime
    &&& strings_view(d.chunks@) == chunk_spec(text, CHUNK_WORDS as nat)
}

impl IngestedDoc {
    /// A document with the given fields, its text split into chunks.
    pub fn new(text: String, source: String, mime: String) -> (d: Self)
        ensures
            doc_fields(d, text@, source@, mime@),
    {
        let chunks = chunk_text(text.as_str(), CHUNK_WORDS);
        IngestedDoc { text, source, mime, chunks }
    }
}

/// Why a document could not be ingested.
pub enum IngestError {
    /// The PDF reader failed (its message).
    Pdf(String),
    /// The DOCX container could not be opened (the reader's error).
    DocxOpen(String),
    /// The DOCX document could not be parsed (the reader's error).
    DocxParse(String),
    /// The XLSX workbook could not be opened (its message).
    Xlsx(String),
    /// The JSON text could not be parsed (its message).
    Json(String),
    /// An XML file is not valid UTF-8 (the decoder's message).
    XmlUtf8(String),
    /// An HTML file is not valid UTF-8 (the decoder's message).
    HtmlUtf8(String),
    /// A file could not be read (the reader's message).
    Read(String),
    /// A URL could not be fetched (the client's message).
    Fetch(String),
}

/// The message of an ingestion error.
pub open spec fn error_message(e: IngestError) -> Seq<char> {
    match e {
        IngestError::Pdf(m) => "PDF error: "@ + m@,
        IngestError::DocxOpen(m) => "DOCX error: "@ + m@,
        IngestError::DocxParse(m) => "DOCX parse: "@ + m@,
        IngestError::Xlsx(m) => "XLSX error: "@ + m@,
        IngestError::Json(m) => "JSON error: "@ + m@,
        IngestError::XmlUtf8(m) => "XML UTF-8: "@ + m@,
        IngestError::HtmlUtf8(m) => "HTML UTF-8: "@ + m@,
        IngestError::Read(m) => "Read error: "@ + m@,
        IngestError::Fetch(m) => "URL error: "@ + m@,
    }
}

impl IngestError {
    /// The error's message.
    pub fn message(&self) -> (s: String)
        ensures
            s@ == error_message(*self),
    {
        let (mut s, m) = match self {
            IngestError::Pdf(m) => (String::from_str("PDF error: "), m.as_str()),
            IngestError::DocxOpen(m) => (String::from_str("DOCX error: "), m.as_str()),
            IngestError::DocxParse(m) => (String::from_str("DOCX parse: "), m.as_str()),
            IngestError::Xlsx(m) => (String::from_str("XLSX error: "), m.as_str()),
            IngestError::Json(m) => (String::from_str("JSON error: "), m.as_str()),
            IngestError::XmlUtf8(m) => (String::from_str("XML UTF-8: "), m.as_str()),
            IngestError::HtmlUtf8(m) => (String::from_str("HTML UTF-8: "), m.as_str()),
            IngestError::Read(m) => (String::from_str("Read error: "), m.as_str()),
            IngestError::Fetch(m) => (String::from_str("URL error: "), m.as_str()),
        };
        s.append(m);
        assert(s@ =~= error_message(*self));
        s
    }
}


// ─── Plain text, images and audio ────────────────────────────────────────────

/// Decodes the bytes (invalid sequences replaced) and cleans the text.
pub fn ingest_text(bytes: &[u8], source: &str, mime: &str) -> (d: IngestedDoc)
    ensures
        doc_fields(d, clean_spec(utf8_lossy(bytes@)), source@, mime@),
{
    let text = string_from_utf8_lossy(bytes);
    IngestedDoc::new(clean_text(text.as_str()), String::from_str(source), String::from_str(mime))
}

/// The placeholder text of a file whose content is not read: `head`, the size
/// in bytes, `" bytes from "`, the source and `tail`.
pub open spec fn placeholder(head: Seq<char>, len: nat, source: Seq<char>, tail: Seq<char>) -> Seq<char> {
    head + decimal(len) + " bytes from "@ + source + tail
}

fn placeholder_text(head: &str, len: usize, source: &str, tail: &str) -> (s: String)
    ensures
        s@ == placeholder(head@, len as nat, source@, tail@),
{
    let mut s = String::from_str(head);
    push_decimal(&mut s, len as u64);
    s.append(" bytes from ");
    s.append(source);
    s.append(tail);
    assert(s@ =~= placeholder(head@, len as nat, source@, tail@));
    s
}

/// The text of an image: a note with its size and source (no text is read).
pub open spec fn image_note(len: nat, source: Seq<char>) -> Seq<char> {
    placeholder(
        "[Image: "@,
        len,
        source,
        ". Connect Tesseract OCR or an OCR endpoint to extract text.]"@,
    )
}

/// The text of an audio file: a note with its size and source.
pub open spec fn audio_note(len: nat, source: Seq<char>) -> Seq<char> {
    placeholder("[Audio: "@, len, source, ". Connect whisper.cpp to transcribe.]"@)
}

/// The text of undecodable binary data: its size and source.
pub open spec fn binary_note(len: nat, source: Seq<char>) -> Seq<char> {
    placeholder("[Binary data: "@, len, source, "]"@)
}

/// An image is acknowledged with a note of its size; its pixels are not read.
pub fn ingest_image(bytes: &[u8], source: &str) -> (d: IngestedDoc)
    ensures
        doc_fields(d, image_note(bytes@.len(), source@), source@, "image/*"@),
{
    let text = placeholder_text(
        "[Image: ",
        bytes.len(),
        source,
        ". Connect Tesseract OCR or an OCR endpoint to extract text.]",
    );
    IngestedDoc::new(text, String::from_str(source), String::from_str("image/*"))
}

/// An audio file is acknowledged with a note of its size; it is not transcribed.
pub fn ingest_audio(bytes: &[u8], source: &str) -> (d: IngestedDoc)
    ensures
        doc_fields(d, audio_note(bytes@.len(), source@), source@, "audio/*"@),
{
    let text = placeholder_text("[Audio: ", bytes.len(), source, ". Connect whisper.cpp to transcribe.]");
    IngestedDoc::new(text, String::from_str(source), String::from_str("audio/*"))
}

// ─── Readers ─────────────────────────────────────────────────────────────────

/// Makes a document of the text read from a PDF file, cleaned, or fails with
/// the reader's message. The PDF reader itself runs in the caller, which can
/// contain its failures (it may panic on malformed files) and hands over the
/// text or the message.
pub fn ingest_pdf(extracted: Result<String, String>, source: &str) -> (r: Result<IngestedDoc, IngestError>)
    ensures
        match extracted {
            Ok(t) => r matches Ok(d) && doc_fields(d, clean_spec(t@), source@, "application/pdf"@),
            Err(m) => r matches Err(IngestError::Pdf(m2)) && m2@ == m@,
        },
{
    match extracted {
        Ok(t) => Ok(
            IngestedDoc::new(
                clean_text(t.as_str()),
                String::from_str(source),
                String::from_str("application/pdf"),
            ),
        ),
        Err(m) => Err(IngestError::Pdf(m)),
    }
}

/// The pattern of `<script>` and `<style>` elements with their content.
pub open spec fn script_style_pattern() -> Seq<char> {
    script_style_regex()
}

/// `s` with every match of `pattern` replaced by a space; `s` itself when the
/// pattern does not compile.
pub open spec fn regex_remove_spec(s: Seq<char>, pattern: Seq<char>) -> Seq<char> {
    match regex_replaced(pattern, s, " "@) {
        Some(t) => t,
        None => s,
    }
}

/// Replaces every match of `pattern` in `s` with a space; returns `s` when the
/// pattern does not compile.
pub fn regex_remove(s: &str, pattern: &str) -> (r: String)
    ensures
        r@ == regex_remove_spec(s@, pattern@),
        pattern@ == script_style_regex() ==> forall|p: Seq<char>, t: Seq<char>, b: Seq<char>, q: Seq<char>|
            #![trigger tagged_text(p, t, b, q)]
            (t == "script"@ || t == "style"@) && !p.contains('<') && !b.contains('<') && !q.contains('<')
                && s@ == tagged_text(p, t, b, q) ==> r@ == p + " "@ + q,
{
    proof {
        reveal_strlit(" ");
    }
    match regex_replace_all(pattern, s, " ") {
        Some(t) => t,
        None => String::from_str(s),
    }
}

/// Reads an XML file: decodes it, removes the tags and cleans the text.
pub fn ingest_xml(bytes: &[u8], source: &str) -> (r: Result<IngestedDoc, IngestError>)
    ensures
        vstd::utf8::valid_utf8(bytes@) ==> (r matches Ok(d) && doc_fields(
            d,
            clean_spec(strip_scan(vstd::utf8::decode_utf8(bytes@)).0),
            source@,
            "application/xml"@,
        )),
        !vstd::utf8::valid_utf8(bytes@) ==> r matches Err(IngestError::XmlUtf8(_)),
{
    match str_from_utf8(bytes) {
        Ok(raw) => {
            let text = strip_tags(raw.as_str());
            Ok(
                IngestedDoc::new(
                    clean_text(text.as_str()),
                    String::from_str(source),
                    String::from_str("application/xml"),
                ),
            )
        },
        Err(m) => Err(IngestError::XmlUtf8(m)),
    }
}

/// The text of an HTML page: script and style elements removed, then the
/// tags, then cleaned.
pub open spec fn html_text(raw: Seq<char>) -> Seq<char> {
    clean_spec(strip_scan(regex_remove_spec(raw, script_style_pattern())).0)
}

/// `raw` is text `p`, one `<script>` or `<style>` element `<t>b</t>`, and text
/// `q`, none of which holds a `<` (line breaks may appear anywhere).
pub open spec fn one_element_amid_text(raw: Seq<char>, p: Seq<char>, t: Seq<char>, b: Seq<char>, q: Seq<char>) -> bool {
    &&& t == "script"@ || t == "style"@
    &&& !p.contains('<') && !b.contains('<') && !q.contains('<')
    &&& raw == tagged_text(p, t, b, q)
}

/// What a page reads as once a script or style element is cut out of it: the
/// surrounding text, joined by a space, without tags, cleaned.
pub open spec fn text_without_element(p: Seq<char>, q: Seq<char>) -> Seq<char> {
    clean_spec(strip_scan(p + " "@ + q).0)
}

/// Reads an HTML file: decodes it, removes script and style elements and the
/// tags, and cleans the text. The content of a script or style element never
/// reaches the text, whatever line breaks it holds.
pub fn ingest_html(bytes: &[u8], source: &str) -> (r: Result<IngestedDoc, IngestError>)
    ensures
        vstd::utf8::valid_utf8(bytes@) ==> (r matches Ok(d) && doc_fields(
            d,
            html_text(vstd::utf8::decode_utf8(bytes@)),
            source@,
            "text/html"@,
        )),
        !vstd::utf8::valid_utf8(bytes@) ==> r matches Err(IngestError::HtmlUtf8(_)),
        forall|p: Seq<char>, t: Seq<char>, b: Seq<char>, q: Seq<char>|
            #![trigger tagged_text(p, t, b, q)]
            vstd::utf8::valid_utf8(bytes@) && one_element_amid_text(vstd::utf8::decode_utf8(bytes@), p, t, b, q)
                ==> (r matches Ok(d) && d.text@ == text_without_element(p, q)),
{
    match str_from_utf8(bytes) {
        Ok(raw) => {
            let no_scripts = regex_remove(raw.as_str(), "(?s)<(script|style)[^>]*>.*?</(script|style)>");
            let text = strip_tags(no_scripts.as_str());
            Ok(
                IngestedDoc::new(
                    clean_text(text.as_str()),
                    String::from_str(source),
                    String::from_str("text/html"),
                ),
            )
        },
        Err(m) => Err(IngestError::HtmlUtf8(m)),
    }
}

/// A row of fields as one line: joined with tabs, ended by a newline.
pub open spec fn row_line(fields: Seq<Seq<char>>) -> Seq<char> {
    join_sep(fields, '\t') + seq!['\n']
}

/// The lines of the table's header (when read) and of each record that was read.
pub open spec fn records_text(records: Seq<Option<Vec<String>>>) -> Seq<char>
    decreases records.len(),
{
    if records.len() == 0 {
        seq![]
    } else {
        records_text(records.drop_last()) + match records.last() {
            Some(r) => row_line(strings_view(r@)),
            None => seq![],
        }
    }
}

/// The text of a CSV table: header line, then one line per readable record.
pub open spec fn csv_text(t: CsvTable) -> Seq<char> {
    let head = match t.headers {
        Some(h) => row_line(strings_view(h@)),
        None => seq![],
    };
    head + records_text(t.records@)
}

fn push_row(out: &mut String, fields: &Vec<String>)
    ensures
        final(out)@ == old(out)@ + row_line(strings_view(fields@)),
{
    push_joined(out, fields, '\t');
    string_push(out, '\n');
    assert(final(out)@ =~= old(out)@ + row_line(strings_view(fields@)));
}

/// Reads a CSV file: the header and every readable record, one tab-separated
/// line each; records that cannot be read are skipped.
pub fn ingest_csv(bytes: &[u8], source: &str) -> (d: IngestedDoc)
    ensures
        doc_fields(d, csv_text(csv_table_of(bytes@)), source@, "text/csv"@),
{
    let table = csv_table(bytes);
    let mut text = String::new();
    match &table.headers {
        Some(h) => push_row(&mut text, h),
        None => {},
    }
    let ghost head = text@;
    for i in 0..table.records.len()
        invariant
            text@ == head + records_text(table.records@.take(i as int)),
    {
        assert(table.records@.take(i + 1).drop_last() =~= table.records@.take(i as int));
        assert(table.records@.take(i + 1).last() == table.records@[i as int]);
        match &table.records[i] {
            Some(r) => push_row(&mut text, r),
            None => {},
        }
    }
    assert(table.records@.take(table.records.len() as int) =~= table.records@);
    assert(text@ =~= csv_text(table));
    IngestedDoc::new(text, String::from_str(source), String::from_str("text/csv"))
}

/// The text of a run's items: its text items concatenated.
pub open spec fn run_text(items: Seq<DocRunItem>) -> Seq<char>
    decreases items.len(),
{
    if items.len() == 0 {
        seq![]
    } else {
        run_text(items.drop_last()) + match items.last() {
            DocRunItem::Text(t) => t@,
            DocRunItem::Other => seq![],
        }
    }
}

/// The text of a paragraph: the texts of its runs concatenated.
pub open spec fn para_text(ins: Seq<DocInline>) -> Seq<char>
    decreases ins.len(),
{
    if ins.len() == 0 {
        seq![]
    } else {
        para_text(ins.drop_last()) + match ins.last() {
            DocInline::Run(items) => run_text(items@),
            DocInline::Other => seq![],
        }
    }
}

/// The text of a DOCX body: each paragraph's text followed by a newline;
/// other blocks contribute nothing.
pub open spec fn docx_text(blocks: Seq<DocBlock>) -> Seq<char>
    decreases blocks.len(),
{
    if blocks.len() == 0 {
        seq![]
    } else {
        docx_text(blocks.drop_last()) + match blocks.last() {
            DocBlock::Paragraph(ins) => para_text(ins@) + seq!['\n'],
            DocBlock::Other => seq![],
        }
    }
}

fn push_run(out: &mut String, items: &Vec<DocRunItem>)
    ensures
        final(out)@ == old(out)@ + run_text(items@),
{
    let ghost start = out@;
    for i in 0..items.len()
        invariant
            out@ == start + run_text(items@.take(i as int)),
    {
        assert(items@.take(i + 1).drop_last() =~= items@.take(i as int));
        assert(items@.take(i + 1).last() == items@[i as int]);
        match &items[i] {
            DocRunItem::Text(t) => {
                out.append(t.as_str());
            },
            DocRunItem::Other => {},
        }
        assert(out@ =~= start + run_text(items@.take(i + 1)));
    }
    assert(items@.take(items.len() as int) =~= items@);
}

fn push_paragraph(out: &mut String, ins: &Vec<DocInline>)
    ensures
        final(out)@ == old(out)@ + para_text(ins@),
{
    let ghost start = out@;
    for i in 0..ins.len()
        invariant
            out@ == start + para_text(ins@.take(i as int)),
    {
        assert(ins@.take(i + 1).drop_last() =~= ins@.take(i as int));
        assert(ins@.take(i + 1).last() == ins@[i as int]);
        match &ins[i] {
            DocInline::Run(items) => push_run(out, items),
            DocInline::Other => {},
        }
        assert(out@ =~= start + para_text(ins@.take(i + 1)));
    }
    assert(ins@.take(ins.len() as int) =~= ins@);
}

/// Reads a DOCX file: the text of each paragraph on a line of its own,
/// cleaned; fails, naming the step, when the DOCX reader does.
pub fn ingest_docx(bytes: &[u8], source: &str) -> (r: Result<IngestedDoc, IngestError>)
    ensures
        match docx_blocks_of(bytes@) {
            Ok(b) => r matches Ok(d) && doc_fields(
                d,
                clean_spec(docx_text(b)),
                source@,
                "application/vnd.openxmlformats-officedocument.wordprocessingml.document"@,
            ),
            Err(DocxStage::Open) => r matches Err(IngestError::DocxOpen(_)),
            Err(DocxStage::Parse) => r matches Err(IngestError::DocxParse(_)),
        },
{
    let blocks = match docx_blocks(bytes) {
        Ok(b) => b,
        Err(DocxFailure::Open(m)) => {
            return Err(IngestError::DocxOpen(m));
        },
        Err(DocxFailure::Parse(m)) => {
            return Err(IngestError::DocxParse(m));
        },
    };
    let mut text = String::new();
    for i in 0..blocks.len()
        invariant
            text@ == docx_text(blocks@.take(i as int)),
    {
        assert(blocks@.take(i + 1).drop_last() =~= blocks@.take(i as int));
        assert(blocks@.take(i + 1).last() == blocks@[i as int]);
        match &blocks[i] {
            DocBlock::Paragraph(ins) => {
                push_paragraph(&mut text, ins);
                string_push(&mut text, '\n');
            },
            DocBlock::Other => {},
        }
        assert(text@ =~= docx_text(blocks@.take(i + 1)));
    }
    assert(blocks@.take(blocks.len() as int) =~= blocks@);
    Ok(
        IngestedDoc::new(
            clean_text(text.as_str()),
            String::from_str(source),
            String::from_str(
                "application/vnd.openxmlformats-officedocument.wordprocessingml.document",
            ),
        ),
    )
}

/// The lines of a sheet's rows.
pub open spec fn rows_text(rows: Seq<Vec<String>>) -> Seq<char>
    decreases rows.len(),
{
    if rows.len() == 0 {
        seq![]
    } else {
        rows_text(rows.drop_last()) + row_line(strings_view(rows.last()@))
    }
}

/// The text of a workbook: for each sheet a `"# Sheet: name"` line, then
/// its rows (when they could be read) as tab-separated lines.
pub open spec fn sheets_text(sheets: Seq<Sheet>) -> Seq<char>
    decreases sheets.len(),
{
    if sheets.len() == 0 {
        seq![]
    } else {
        let sh = sheets.last();
        let body = match sh.rows {
            Some(rows) => rows_text(rows@),
            None => seq![],
        };
        sheets_text(sheets.drop_last()) + "# Sheet: "@ + sh.name@ + seq!['\n'] + body
    }
}

fn push_rows(out: &mut String, rows: &Vec<Vec<String>>)
    ensures
        final(out)@ == old(out)@ + rows_text(rows@),
{
    let ghost start = out@;
    for i in 0..rows.len()
        invariant
            out@ == start + rows_text(rows@.take(i as int)),
    {
        assert(rows@.take(i + 1).drop_last() =~= rows@.take(i as int));
        assert(rows@.take(i + 1).last() == rows@[i as int]);
        push_row(out, &rows[i]);
        assert(out@ =~= start + rows_text(rows@.take(i + 1)));
    }
    assert(rows@.take(rows.len() as int) =~= rows@);
}

/// Reads an XLSX workbook: each sheet's name line and its rows as
/// tab-separated lines (the text is not cleaned); fails when the workbook
/// cannot be opened.
pub fn ingest_xlsx(bytes: &[u8], source: &str) -> (r: Result<IngestedDoc, IngestError>)
    ensures
        match xlsx_sheets_of(bytes@) {
            Some(sh) => r matches Ok(d) && doc_fields(
                d,
                sheets_text(sh),
                source@,
                "application/vnd.openxmlformats-officedocument.spreadsheetml.sheet"@,
            ),
            None => r matches Err(IngestError::Xlsx(_)),
        },
{
    let sheets = match xlsx_sheets(bytes) {
        Ok(s) => s,
        Err(m) => {
            return Err(IngestError::Xlsx(m));
        },
    };
    let mut text = String::new();
    for i in 0..sheets.len()
        invariant
            text@ == sheets_text(sheets@.take(i as int)),
    {
        assert(sheets@.take(i + 1).drop_last() =~= sheets@.take(i as int));
        assert(sheets@.take(i + 1).last() == sheets@[i as int]);
        text.append("# Sheet: ");
        text.append(sheets[i].name.as_str());
        string_push(&mut text, '\n');
        match &sheets[i].rows {
            Some(rows) => push_rows(&mut text, rows),
            None => {},
        }
        assert(text@ =~= sheets_text(sheets@.take(i + 1)));
    }
    assert(sheets@.take(sheets.len() as int) =~= sheets@);
    Ok(
        IngestedDoc::new(
            text,
            String::from_str(source),
            String::from_str("application/vnd.openxmlformats-officedocument.spreadsheetml.sheet"),
        ),
    )
}

/// The text of a sheet's rows holds every row, in order: one line per row, and
/// the rows of two lists give the two texts one after the other.
pub proof fn law_rows_text(a: Seq<Vec<String>>, b: Seq<Vec<String>>, x: Vec<String>)
    ensures
        rows_text(seq![]) == Seq::<char>::empty(),
        rows_text(seq![x]) == row_line(strings_view(x@)),
        rows_text(a + b) == rows_text(a) + rows_text(b),
    decreases b.len(),
{
    assert(seq![x].drop_last() =~= Seq::<Vec<String>>::empty());
    assert(seq![x].last() == x);
    assert(Seq::<char>::empty() + row_line(strings_view(x@)) =~= row_line(strings_view(x@)));
    if b.len() == 0 {
        assert(a + b =~= a);
    } else {
        law_rows_text(a, b.drop_last(), x);
        assert((a + b).drop_last() =~= a + b.drop_last());
        assert((a + b).last() == b.last());
    }
    assert(rows_text(a + b) =~= rows_text(a) + rows_text(b));
}

/// The text of CSV records holds every record that was read, in order, one
/// line each; a record that could not be read adds nothing.
pub proof fn law_records_text(a: Seq<Option<Vec<String>>>, b: Seq<Option<Vec<String>>>, x: Option<Vec<String>>)
    ensures
        records_text(seq![]) == Seq::<char>::empty(),
        records_text(seq![x]) == (match x { Some(r) => row_line(strings_view(r@)), None => Seq::<char>::empty() }),
        records_text(a + b) == records_text(a) + records_text(b),
    decreases b.len(),
{
    assert(seq![x].drop_last() =~= Seq::<Option<Vec<String>>>::empty());
    assert(seq![x].last() == x);
    assert(Seq::<char>::empty() + (match x { Some(r) => row_line(strings_view(r@)), None => Seq::<char>::empty() }) =~= (match x { Some(r) => row_line(strings_view(r@)), None => Seq::<char>::empty() }));
    if b.len() == 0 {
        assert(a + b =~= a);
    } else {
        law_records_text(a, b.drop_last(), x);
        assert((a + b).drop_last() =~= a + b.drop_last());
        assert((a + b).last() == b.last());
    }
    assert(records_text(a + b) =~= records_text(a) + records_text(b));
}

/// The text of a workbook holds every sheet, in order: its name line, then its
/// rows when they could be read.
pub proof fn law_sheets_text(a: Seq<Sheet>, b: Seq<Sheet>, x: Sheet)
    ensures
        sheets_text(seq![]) == Seq::<char>::empty(),
        sheets_text(seq![x]) == "# Sheet: "@ + x.name@ + seq!['\n'] + (match x.rows { Some(rows) => rows_text(rows@), None => Seq::<char>::empty() }),
        sheets_text(a + b) == sheets_text(a) + sheets_text(b),
    decreases b.len(),
{
    assert(seq![x].drop_last() =~= Seq::<Sheet>::empty());
    assert(seq![x].last() == x);
    assert(Seq::<char>::empty() + "# Sheet: "@ + x.name@ + seq!['\n'] + (match x.rows { Some(rows) => rows_text(rows@), None => Seq::<char>::empty() }) =~= "# Sheet: "@ + x.name@ + seq!['\n'] + (match x.rows { Some(rows) => rows_text(rows@), None => Seq::<char>::empty() }));
    assert(sheets_text(seq![x].drop_last()) == Seq::<char>::empty());
    assert(sheets_text(seq![x]) =~= "# Sheet: "@ + x.name@ + seq!['\n'] + (match x.rows { Some(rows) => rows_text(rows@), None => Seq::<char>::empty() }));
    if b.len() == 0 {
        assert(a + b =~= a);
    } else {
        law_sheets_text(a, b.drop_last(), x);
        assert((a + b).drop_last() =~= a + b.drop_last());
        assert((a + b).last() == b.last());
    }
    assert(sheets_text(a + b) =~= sheets_text(a) + sheets_text(b));
}

/// The text of a DOCX body holds every paragraph, in order, each on a line of
/// its own; other blocks add nothing.
pub proof fn law_docx_text(a: Seq<DocBlock>, b: Seq<DocBlock>, x: DocBlock)
    ensures
        docx_text(seq![]) == Seq::<char>::empty(),
        docx_text(seq![x]) == (match x { DocBlock::Paragraph(ins) => para_text(ins@) + seq!['\n'], DocBlock::Other => Seq::<char>::empty() }),
        docx_text(a + b) == docx_text(a) + docx_text(b),
    decreases b.len(),
{
    assert(seq![x].drop_last() =~= Seq::<DocBlock>::empty());
    assert(seq![x].last() == x);
    assert(Seq::<char>::empty() + (match x { DocBlock::Paragraph(ins) => para_text(ins@) + seq!['\n'], DocBlock::Other => Seq::<char>::empty() }) =~= (match x { DocBlock::Paragraph(ins) => para_text(ins@) + seq!['\n'], DocBlock::Other => Seq::<char>::empty() }));
    assert(docx_text(seq![x].drop_last()) == Seq::<char>::empty());
    assert(docx_text(seq![x]) =~= (match x { DocBlock::Paragraph(ins) => para_text(ins@) + seq!['\n'], DocBlock::Other => Seq::<char>::empty() }));
    if b.len() == 0 {
        assert(a + b =~= a);
    } else {
        law_docx_text(a, b.drop_last(), x);
        assert((a + b).drop_last() =~= a + b.drop_last());
        assert((a + b).last() == b.last());
    }
    assert(docx_text(a + b) =~= docx_text(a) + docx_text(b));
}

// ─── JSON ────────────────────────────────────────────────────────────────────

/// The key path of member `k` below `prefix`: `k` at the top, else `prefix.k`.
pub open spec fn member_path(prefix: Seq<char>, k: Seq<char>) -> Seq<char> {
    if prefix.len() == 0 {
        k
    } else {
        prefix + seq!['.'] + k
    }
}

/// The key path of item `i` below `prefix`: `prefix[i]`.
pub open spec fn item_path(prefix: Seq<char>, i: nat) -> Seq<char> {
    prefix + seq!['['] + decimal(i) + seq![']']
}

/// One `path: value` line per scalar of a JSON value, in document order.
pub open spec fn flatten_spec(n: JsonNode, prefix: Seq<char>) -> Seq<Seq<char>>
    decreases n, 0int,
{
    match n {
        JsonNode::Object(es) => flatten_members(es@, prefix, es@.len() as int),
        JsonNode::Array(items) => flatten_items(items@, prefix, items@.len() as int),
        JsonNode::Scalar(t) => seq![prefix + ": "@ + t@],
    }
}

/// The lines of the first `k` members of an object.
pub open spec fn flatten_members(es: Seq<(String, JsonNode)>, prefix: Seq<char>, k: int) -> Seq<Seq<char>>
    decreases es, k,
{
    if k <= 0 || k > es.len() {
        seq![]
    } else {
        flatten_members(es, prefix, k - 1) + flatten_spec(es[k - 1].1, member_path(prefix, es[k - 1].0@))
    }
}

/// The lines of the first `k` items of an array.
pub open spec fn flatten_items(items: Seq<JsonNode>, prefix: Seq<char>, k: int) -> Seq<Seq<char>>
    decreases items, k,
{
    if k <= 0 || k > items.len() {
        seq![]
    } else {
        flatten_items(items, prefix, k - 1) + flatten_spec(items[k - 1], item_path(prefix, (k - 1) as nat))
    }
}

/// Appends one `path: value` line per scalar of `v` to `out`.
pub fn flatten_json(v: &JsonNode, prefix: &String, out: &mut Vec<String>)
    ensures
        strings_view(final(out)@) == strings_view(old(out)@) + flatten_spec(*v, prefix@),
    decreases v,
{
    let ghost start = strings_view(out@);
    match v {
        JsonNode::Object(es) => {
            for i in 0..es.len()
                invariant
                    strings_view(out@) == start + flatten_members(es@, prefix@, i as int),
                    *v == JsonNode::Object(*es),
            {
                let key = if prefix.as_str().is_empty() {
                    es[i].0.clone()
                } else {
                    let mut k = prefix.clone();
                    string_push(&mut k, '.');
                    k.append(es[i].0.as_str());
                    k
                };
                proof {
                    if prefix@.len() == 0 {
                        assert(prefix@ =~= seq![]);
                    }
                    assert(key@ =~= member_path(prefix@, es@[i as int].0@));
                }
                proof {
                    assert(decreases_to!(*v => (*v)->Object_0));
                    assert((*v)->Object_0 == *es);
                    assert(decreases_to!(*es => es@));
                    assert(decreases_to!(es@ => es@[i as int]));
                    assert(decreases_to!(es@[i as int] => es@[i as int].1));
                }
                flatten_json(&es[i].1, &key, out);
                assert(strings_view(out@) =~= start + flatten_members(es@, prefix@, i + 1));
            }
        },
        JsonNode::Array(items) => {
            for i in 0..items.len()
                invariant
                    strings_view(out@) == start + flatten_items(items@, prefix@, i as int),
                    *v == JsonNode::Array(*items),
            {
                let mut key = prefix.clone();
                string_push(&mut key, '[');
                push_decimal(&mut key, i as u64);
                string_push(&mut key, ']');
                assert(key@ =~= item_path(prefix@, i as nat));
                proof {
                    assert(decreases_to!(*v => (*v)->Array_0));
                    assert((*v)->Array_0 == *items);
                    assert(decreases_to!(*items => items@));
                    assert(decreases_to!(items@ => items@[i as int]));
                }
                flatten_json(&items[i], &key, out);
                assert(strings_view(out@) =~= start + flatten_items(items@, prefix@, i + 1));
            }
        },
        JsonNode::Scalar(t) => {
            let mut line = prefix.clone();
            line.append(": ");
            line.append(t.as_str());
            out.push(line);
            assert(strings_view(out@) =~= start + seq![prefix@ + ": "@ + t@]);
        },
    }
}

/// Reads a JSON file: one `path: value` line per scalar, joined with newlines
/// (the text is not cleaned); fails when the bytes are not valid JSON.
pub fn ingest_json(bytes: &[u8], source: &str) -> (r: Result<IngestedDoc, IngestError>)
    ensures
        match json_tree_of(bytes@) {
            Some(n) => r matches Ok(d) && doc_fields(d, join_sep(flatten_spec(n, seq![]), '\n'), source@, "application/json"@),
            None => r matches Err(IngestError::Json(_)),
        },
{
    let v = match json_tree(bytes) {
        Ok(v) => v,
        Err(m) => {
            return Err(IngestError::Json(m));
        },
    };
    let mut lines: Vec<String> = Vec::new();
    let prefix = String::new();
    flatten_json(&v, &prefix, &mut lines);
    assert(strings_view(lines@) =~= flatten_spec(v, seq![]));
    let mut text = String::new();
    push_joined(&mut text, &lines, '\n');
    assert(text@ =~= join_sep(flatten_spec(v, seq![]), '\n'));
    Ok(IngestedDoc::new(text, String::from_str(source), String::from_str("application/json")))
}

// ─── File types ──────────────────────────────────────────────────────────────

/// Scanning a path (components separated by `/`): the last finished component
/// that is neither empty nor `.`, and the component being read.
pub open spec fn path_scan(s: Seq<char>) -> (Option<Seq<char>>, Seq<char>)
    decreases s.len(),
{
    if s.len() == 0 {
        (None, seq![])
    } else {
        let (last, cur) = path_scan(s.drop_last());
        let c = s.last();
        if c == '/' {
            (if cur.len() > 0 && cur != seq!['.'] { Some(cur) } else { last }, seq![])
        } else {
            (last, cur.push(c))
        }
    }
}

/// The file name of a path, as `Path::file_name` gives it on Unix: the last
/// component that is neither empty nor `.`, unless that is `..`.
pub open spec fn file_name_spec(s: Seq<char>) -> Option<Seq<char>> {
    let (last, cur) = path_scan(s);
    let f = if cur.len() > 0 && cur != seq!['.'] { Some(cur) } else { last };
    match f {
        Some(n) => if n == seq!['.', '.'] { None } else { Some(n) },
        None => None,
    }
}

/// Index of the last `.` among the first `k` characters of `n`, or -1.
pub open spec fn last_dot(n: Seq<char>, k: int) -> int
    decreases k,
{
    if k <= 0 {
        -1
    } else if n[k - 1] == '.' {
        k - 1
    } else {
        last_dot(n, k - 1)
    }
}

/// The extension of a path, as `Path::extension` gives it on Unix: what
/// follows the last `.` of the file name, unless there is no `.` or the only
/// one starts the name; empty when there is none.
pub open spec fn extension_spec(s: Seq<char>) -> Seq<char> {
    match file_name_spec(s) {
        Some(n) => {
            let d = last_dot(n, n.len() as int);
            if d <= 0 {
                seq![]
            } else {
                n.subrange(d + 1, n.len() as int)
            }
        },
        None => seq![],
    }
}

/// The extension of a path (empty when it has none).
pub fn extension(source: &str) -> (e: String)
    ensures
        e@ == extension_spec(source@),
{
    let cs = str_chars(source);
    let mut last: Option<Vec<char>> = None;
    let mut cur: Vec<char> = Vec::new();
    for i in 0..cs.len()
        invariant
            cs@ == source@,
            (match last { Some(v) => Some(v@), None => None::<Seq<char>> }, cur@) == path_scan(
                cs@.take(i as int),
            ),
    {
        assert(cs@.take(i + 1).drop_last() =~= cs@.take(i as int));
        assert(cs@.take(i + 1).last() == cs@[i as int]);
        if cs[i] == '/' {
            if cur.len() > 0 && !(cur.len() == 1 && cur[0] == '.') {
                proof {
                    assert(cur@ != seq!['.']) by {
                        if cur@.len() == 1 {
                            assert(cur@[0] != seq!['.'][0]);
                        }
                    }
                }
                last = Some(cur);
            } else {
                proof {
                    if cur@.len() == 1 {
                        assert(cur@ =~= seq!['.']);
                    }
                }
            }
            cur = Vec::new();
            assert(cur@ =~= seq![]);
        } else {
            cur.push(cs[i]);
        }
    }
    assert(cs@.take(cs.len() as int) =~= cs@);
    let is_dot = cur.len() == 1 && cur[0] == '.';
    proof {
        if is_dot {
            assert(cur@ =~= seq!['.']);
        } else if cur@.len() == 1 {
            assert(cur@[0] != seq!['.'][0]);
        }
    }
    let name: Option<Vec<char>> = if cur.len() > 0 && !is_dot { Some(cur) } else { last };
    let name = match name {
        Some(n) => {
            if n.len() == 2 && n[0] == '.' && n[1] == '.' {
                assert(n@ =~= seq!['.', '.']);
                None
            } else {
                proof {
                    if n@.len() == 2 {
                        assert(n@[0] != '.' || n@[1] != '.');
                        assert(n@ != seq!['.', '.']) by {
                            if n@ == seq!['.', '.'] {
                                assert(n@[0] == '.' && n@[1] == '.');
                            }
                        }
                    }
                }
                Some(n)
            }
        },
        None => None,
    };
    match name {
        Some(n) => {
            let mut k = n.len();
            while k > 0 && n[k - 1] != '.'
                invariant
                    k <= n@.len(),
                    last_dot(n@, n@.len() as int) == last_dot(n@, k as int),
                decreases k,
            {
                k = k - 1;
            }
            if k <= 1 {
                String::new()
            } else {
                slice_to_string(&n, k, n.len())
            }
        },
        None => String::new(),
    }
}

/// The kind of reader chosen for a file.
#[derive(PartialEq, Eq, Structural, Clone, Copy)]
pub enum Format {
    Pdf,
    Docx,
    Spreadsheet,
    Csv,
    Json,
    Xml,
    Html,
    Markdown,
    Plain,
    Code,
    Image,
    Audio,
    Unknown,
}

/// The reader for a lowercase extension.
pub open spec fn format_of(ext: Seq<char>) -> Format {
    if ext == "pdf"@ {
        Format::Pdf
    } else if ext == "docx"@ {
        Format::Docx
    } else if ext == "xlsx"@ || ext == "xls"@ {
        Format::Spreadsheet
    } else if ext == "csv"@ {
        Format::Csv
    } else if ext == "json"@ {
        Format::Json
    } else if ext == "xml"@ {
        Format::Xml
    } else if ext == "html"@ || ext == "htm"@ {
        Format::Html
    } else if ext == "md"@ || ext == "markdown"@ {
        Format::Markdown
    } else if ext == "txt"@ || ext == "log"@ {
        Format::Plain
    } else if ext == "rs"@ || ext == "py"@ || ext == "js"@ || ext == "ts"@ || ext == "go"@ || ext
        == "c"@ || ext == "cpp"@ || ext == "java"@ {
        Format::Code
    } else if ext == "png"@ || ext == "jpg"@ || ext == "jpeg"@ || ext == "bmp"@ || ext == "tiff"@
        || ext == "webp"@ {
        Format::Image
    } else if ext == "mp3"@ || ext == "wav"@ || ext == "ogg"@ || ext == "m4a"@ || ext == "flac"@ {
        Format::Audio
    } else {
        Format::Unknown
    }
}

fn is(s: &String, lit: &str) -> (b: bool)
    ensures
        b == (s@ == lit@),
{
    *s == String::from_str(lit)
}

/// The reader for a lowercase extension.
pub fn format_for(ext: &String) -> (f: Format)
    ensures
        f == format_of(ext@),
{
    if is(ext, "pdf") {
        Format::Pdf
    } else if is(ext, "docx") {
        Format::Docx
    } else if is(ext, "xlsx") || is(ext, "xls") {
        Format::Spreadsheet
    } else if is(ext, "csv") {
        Format::Csv
    } else if is(ext, "json") {
        Format::Json
    } else if is(ext, "xml") {
        Format::Xml
    } else if is(ext, "html") || is(ext, "htm") {
        Format::Html
    } else if is(ext, "md") || is(ext, "markdown") {
        Format::Markdown
    } else if is(ext, "txt") || is(ext, "log") {
        Format::Plain
    } else if is(ext, "rs") || is(ext, "py") || is(ext, "js") || is(ext, "ts") || is(ext, "go")
        || is(ext, "c") || is(ext, "cpp") || is(ext, "java") {
        Format::Code
    } else if is(ext, "png") || is(ext, "jpg") || is(ext, "jpeg") || is(ext, "bmp") || is(
        ext,
        "tiff",
    ) || is(ext, "webp") {
        Format::Image
    } else if is(ext, "mp3") || is(ext, "wav") || is(ext, "ogg") || is(ext, "m4a") || is(
        ext,
        "flac",
    ) {
        Format::Audio
    } else {
        Format::Unknown
    }
}

/// The reader chosen for a source: by its extension, lowercased.
pub open spec fn source_format(source: Seq<char>) -> Format {
    format_of(lowercase(extension_spec(source)))
}

/// The extension table: which reader each lowercase extension selects. Any
/// other extension (the empty one included) is unknown.
pub proof fn law_extension_table()
    ensures
        format_of("pdf"@) == Format::Pdf,
        format_of("docx"@) == Format::Docx,
        format_of("xlsx"@) == Format::Spreadsheet,
        format_of("xls"@) == Format::Spreadsheet,
        format_of("csv"@) == Format::Csv,
        format_of("json"@) == Format::Json,
        format_of("xml"@) == Format::Xml,
        format_of("html"@) == Format::Html,
        format_of("htm"@) == Format::Html,
        format_of("md"@) == Format::Markdown,
        format_of("markdown"@) == Format::Markdown,
        format_of("txt"@) == Format::Plain,
        format_of("log"@) == Format::Plain,
        format_of("rs"@) == Format::Code,
        format_of("py"@) == Format::Code,
        format_of("js"@) == Format::Code,
        format_of("ts"@) == Format::Code,
        format_of("go"@) == Format::Code,
        format_of("c"@) == Format::Code,
        format_of("cpp"@) == Format::Code,
        format_of("java"@) == Format::Code,
        format_of("png"@) == Format::Image,
        format_of("jpg"@) == Format::Image,
        format_of("jpeg"@) == Format::Image,
        format_of("bmp"@) == Format::Image,
        format_of("tiff"@) == Format::Image,
        format_of("webp"@) == Format::Image,
        format_of("mp3"@) == Format::Audio,
        format_of("wav"@) == Format::Audio,
        format_of("ogg"@) == Format::Audio,
        format_of("m4a"@) == Format::Audio,
        format_of("flac"@) == Format::Audio,
        format_of(""@) == Format::Unknown,
        format_of("PDF"@) == Format::Unknown,
{
    reveal_strlit("pdf");
    reveal_strlit("docx");
    reveal_strlit("xlsx");
    reveal_strlit("xls");
    reveal_strlit("csv");
    reveal_strlit("json");
    reveal_strlit("xml");
    reveal_strlit("html");
    reveal_strlit("htm");
    reveal_strlit("md");
    reveal_strlit("markdown");
    reveal_strlit("txt");
    reveal_strlit("log");
    reveal_strlit("rs");
    reveal_strlit("py");
    reveal_strlit("js");
    reveal_strlit("ts");
    reveal_strlit("go");
    reveal_strlit("c");
    reveal_strlit("cpp");
    reveal_strlit("java");
    reveal_strlit("png");
    reveal_strlit("jpg");
    reveal_strlit("jpeg");
    reveal_strlit("bmp");
    reveal_strlit("tiff");
    reveal_strlit("webp");
    reveal_strlit("mp3");
    reveal_strlit("wav");
    reveal_strlit("ogg");
    reveal_strlit("m4a");
    reveal_strlit("flac");
    reveal_strlit("");
    reveal_strlit("PDF");
    assert(format_of("pdf"@) == Format::Pdf);
    assert(format_of("docx"@) == Format::Docx) by {
        assert("docx"@.len() != "pdf"@.len());
    }
    assert(format_of("xlsx"@) == Format::Spreadsheet) by {
        assert("xlsx"@.len() != "pdf"@.len());
        assert("xlsx"@[0] != "docx"@[0]);
    }
    assert(format_of("xls"@) == Format::Spreadsheet) by {
        assert("xls"@[0] != "pdf"@[0]);
        assert("xls"@.len() != "docx"@.len());
        assert("xls"@.len() != "xlsx"@.len());
    }
    assert(format_of("csv"@) == Format::Csv) by {
        assert("csv"@[0] != "pdf"@[0]);
        assert("csv"@.len() != "docx"@.len());
        assert("csv"@.len() != "xlsx"@.len());
        assert("csv"@[0] != "xls"@[0]);
    }
    assert(format_of("json"@) == Format::Json) by {
        assert("json"@.len() != "pdf"@.len());
        assert("json"@[0] != "docx"@[0]);
        assert("json"@[0] != "xlsx"@[0]);
        assert("json"@.len() != "xls"@.len());
        assert("json"@.len() != "csv"@.len());
    }
    assert(format_of("xml"@) == Format::Xml) by {
        assert("xml"@[0] != "pdf"@[0]);
        assert("xml"@.len() != "docx"@.len());
        assert("xml"@.len() != "xlsx"@.len());
        assert("xml"@[1] != "xls"@[1]);
        assert("xml"@[0] != "csv"@[0]);
        assert("xml"@.len() != "json"@.len());
    }
    assert(format_of("html"@) == Format::Html) by {
        assert("html"@.len() != "pdf"@.len());
        assert("html"@[0] != "docx"@[0]);
        assert("html"@[0] != "xlsx"@[0]);
        assert("html"@.len() != "xls"@.len());
        assert("html"@.len() != "csv"@.len());
        assert("html"@[0] != "json"@[0]);
        assert("html"@.len() != "xml"@.len());
    }
    assert(format_of("htm"@) == Format::Html) by {
        assert("htm"@[0] != "pdf"@[0]);
        assert("htm"@.len() != "docx"@.len());
        assert("htm"@.len() != "xlsx"@.len());
        assert("htm"@[0] != "xls"@[0]);
        assert("htm"@[0] != "csv"@[0]);
        assert("htm"@.len() != "json"@.len());
        assert("htm"@[0] != "xml"@[0]);
        assert("htm"@.len() != "html"@.len());
    }
    assert(format_of("md"@) == Format::Markdown) by {
        assert("md"@.len() != "pdf"@.len());
        assert("md"@.len() != "docx"@.len());
        assert("md"@.len() != "xlsx"@.len());
        assert("md"@.len() != "xls"@.len());
        assert("md"@.len() != "csv"@.len());
        assert("md"@.len() != "json"@.len());
        assert("md"@.len() != "xml"@.len());
        assert("md"@.len() != "html"@.len());
        assert("md"@.len() != "htm"@.len());
    }
    assert(format_of("markdown"@) == Format::Markdown) by {
        assert("markdown"@.len() != "pdf"@.len());
        assert("markdown"@.len() != "docx"@.len());
        assert("markdown"@.len() != "xlsx"@.len());
        assert("markdown"@.len() != "xls"@.len());
        assert("markdown"@.len() != "csv"@.len());
        assert("markdown"@.len() != "json"@.len());
        assert("markdown"@.len() != "xml"@.len());
        assert("markdown"@.len() != "html"@.len());
        assert("markdown"@.len() != "htm"@.len());
        assert("markdown"@.len() != "md"@.len());
    }
    assert(format_of("txt"@) == Format::Plain) by {
        assert("txt"@[0] != "pdf"@[0]);
        assert("txt"@.len() != "docx"@.len());
        assert("txt"@.len() != "xlsx"@.len());
        assert("txt"@[0] != "xls"@[0]);
        assert("txt"@[0] != "csv"@[0]);
        assert("txt"@.len() != "json"@.len());
        assert("txt"@[0] != "xml"@[0]);
        assert("txt"@.len() != "html"@.len());
        assert("txt"@[0] != "htm"@[0]);
        assert("txt"@.len() != "md"@.len());
        assert("txt"@.len() != "markdown"@.len());
    }
    assert(format_of("log"@) == Format::Plain) by {
        assert("log"@[0] != "pdf"@[0]);
        assert("log"@.len() != "docx"@.len());
        assert("log"@.len() != "xlsx"@.len());
        assert("log"@[0] != "xls"@[0]);
        assert("log"@[0] != "csv"@[0]);
        assert("log"@.len() != "json"@.len());
        assert("log"@[0] != "xml"@[0]);
        assert("log"@.len() != "html"@.len());
        assert("log"@[0] != "htm"@[0]);
        assert("log"@.len() != "md"@.len());
        assert("log"@.len() != "markdown"@.len());
        assert("log"@[0] != "txt"@[0]);
    }
    assert(format_of("rs"@) == Format::Code) by {
        assert("rs"@.len() != "pdf"@.len());
        assert("rs"@.len() != "docx"@.len());
        assert("rs"@.len() != "xlsx"@.len());
        assert("rs"@.len() != "xls"@.len());
        assert("rs"@.len() != "csv"@.len());
        assert("rs"@.len() != "json"@.len());
        assert("rs"@.len() != "xml"@.len());
        assert("rs"@.len() != "html"@.len());
        assert("rs"@.len() != "htm"@.len());
        assert("rs"@[0] != "md"@[0]);
        assert("rs"@.len() != "markdown"@.len());
        assert("rs"@.len() != "txt"@.len());
        assert("rs"@.len() != "log"@.len());
    }
    assert(format_of("py"@) == Format::Code) by {
        assert("py"@.len() != "pdf"@.len());
        assert("py"@.len() != "docx"@.len());
        assert("py"@.len() != "xlsx"@.len());
        assert("py"@.len() != "xls"@.len());
        assert("py"@.len() != "csv"@.len());
        assert("py"@.len() != "json"@.len());
        assert("py"@.len() != "xml"@.len());
        assert("py"@.len() != "html"@.len());
        assert("py"@.len() != "htm"@.len());
        assert("py"@[0] != "md"@[0]);
        assert("py"@.len() != "markdown"@.len());
        assert("py"@.len() != "txt"@.len());
        assert("py"@.len() != "log"@.len());
        assert("py"@[0] != "rs"@[0]);
    }
    assert(format_of("js"@) == Format::Code) by {
        assert("js"@.len() != "pdf"@.len());
        assert("js"@.len() != "docx"@.len());
        assert("js"@.len() != "xlsx"@.len());
        assert("js"@.len() != "xls"@.len());
        assert("js"@.len() != "csv"@.len());
        assert("js"@.len() != "json"@.len());
        assert("js"@.len() != "xml"@.len());
        assert("js"@.len() != "html"@.len());
        assert("js"@.len() != "htm"@.len());
        assert("js"@[0] != "md"@[0]);
        assert("js"@.len() != "markdown"@.len());
        assert("js"@.len() != "txt"@.len());
        assert("js"@.len() != "log"@.len());
        assert("js"@[0] != "rs"@[0]);
        assert("js"@[0] != "py"@[0]);
    }
    assert(format_of("ts"@) == Format::Code) by {
        assert("ts"@.len() != "pdf"@.len());
        assert("ts"@.len() != "docx"@.len());
        assert("ts"@.len() != "xlsx"@.len());
        assert("ts"@.len() != "xls"@.len());
        assert("ts"@.len() != "csv"@.len());
        assert("ts"@.len() != "json"@.len());
        assert("ts"@.len() != "xml"@.len());
        assert("ts"@.len() != "html"@.len());
        assert("ts"@.len() != "htm"@.len());
        assert("ts"@[0] != "md"@[0]);
        assert("ts"@.len() != "markdown"@.len());
        assert("ts"@.len() != "txt"@.len());
        assert("ts"@.len() != "log"@.len());
        assert("ts"@[0] != "rs"@[0]);
        assert("ts"@[0] != "py"@[0]);
        assert("ts"@[0] != "js"@[0]);
    }
    assert(format_of("go"@) == Format::Code) by {
        assert("go"@.len() != "pdf"@.len());
        assert("go"@.len() != "docx"@.len());
        assert("go"@.len() != "xlsx"@.len());
        assert("go"@.len() != "xls"@.len());
        assert("go"@.len() != "csv"@.len());
        assert("go"@.len() != "json"@.len());
        assert("go"@.len() != "xml"@.len());
        assert("go"@.len() != "html"@.len());
        assert("go"@.len() != "htm"@.len());
        assert("go"@[0] != "md"@[0]);
        assert("go"@.len() != "markdown"@.len());
        assert("go"@.len() != "txt"@.len());
        assert("go"@.len() != "log"@.len());
        assert("go"@[0] != "rs"@[0]);
        assert("go"@[0] != "py"@[0]);
        assert("go"@[0] != "js"@[0]);
        assert("go"@[0] != "ts"@[0]);
    }
    assert(format_of("c"@) == Format::Code) by {
        assert("c"@.len() != "pdf"@.len());
        assert("c"@.len() != "docx"@.len());
        assert("c"@.len() != "xlsx"@.len());
        assert("c"@.len() != "xls"@.len());
        assert("c"@.len() != "csv"@.len());
        assert("c"@.len() != "json"@.len());
        assert("c"@.len() != "xml"@.len());
        assert("c"@.len() != "html"@.len());
        assert("c"@.len() != "htm"@.len());
        assert("c"@.len() != "md"@.len());
        assert("c"@.len() != "markdown"@.len());
        assert("c"@.len() != "txt"@.len());
        assert("c"@.len() != "log"@.len());
        assert("c"@.len() != "rs"@.len());
        assert("c"@.len() != "py"@.len());
        assert("c"@.len() != "js"@.len());
        assert("c"@.len() != "ts"@.len());
        assert("c"@.len() != "go"@.len());
    }
    assert(format_of("cpp"@) == Format::Code) by {
        assert("cpp"@[0] != "pdf"@[0]);
        assert("cpp"@.len() != "docx"@.len());
        assert("cpp"@.len() != "xlsx"@.len());
        assert("cpp"@[0] != "xls"@[0]);
        assert("cpp"@[1] != "csv"@[1]);
        assert("cpp"@.len() != "json"@.len());
        assert("cpp"@[0] != "xml"@[0]);
        assert("cpp"@.len() != "html"@.len());
        assert("cpp"@[0] != "htm"@[0]);
        assert("cpp"@.len() != "md"@.len());
        assert("cpp"@.len() != "markdown"@.len());
        assert("cpp"@[0] != "txt"@[0]);
        assert("cpp"@[0] != "log"@[0]);
        assert("cpp"@.len() != "rs"@.len());
        assert("cpp"@.len() != "py"@.len());
        assert("cpp"@.len() != "js"@.len());
        assert("cpp"@.len() != "ts"@.len());
        assert("cpp"@.len() != "go"@.len());
        assert("cpp"@.len() != "c"@.len());
    }
    assert(format_of("java"@) == Format::Code) by {
        assert("java"@.len() != "pdf"@.len());
        assert("java"@[0] != "docx"@[0]);
        assert("java"@[0] != "xlsx"@[0]);
        assert("java"@.len() != "xls"@.len());
        assert("java"@.len() != "csv"@.len());
        assert("java"@[1] != "json"@[1]);
        assert("java"@.len() != "xml"@.len());
        assert("java"@[0] != "html"@[0]);
        assert("java"@.len() != "htm"@.len());
        assert("java"@.len() != "md"@.len());
        assert("java"@.len() != "markdown"@.len());
        assert("java"@.len() != "txt"@.len());
        assert("java"@.len() != "log"@.len());
        assert("java"@.len() != "rs"@.len());
        assert("java"@.len() != "py"@.len());
        assert("java"@.len() != "js"@.len());
        assert("java"@.len() != "ts"@.len());
        assert("java"@.len() != "go"@.len());
        assert("java"@.len() != "c"@.len());
        assert("java"@.len() != "cpp"@.len());
    }
    assert(format_of("png"@) == Format::Image) by {
        assert("png"@[1] != "pdf"@[1]);
        assert("png"@.len() != "docx"@.len());
        assert("png"@.len() != "xlsx"@.len());
        assert("png"@[0] != "xls"@[0]);
        assert("png"@[0] != "csv"@[0]);
        assert("png"@.len() != "json"@.len());
        assert("png"@[0] != "xml"@[0]);
        assert("png"@.len() != "html"@.len());
        assert("png"@[0] != "htm"@[0]);
        assert("png"@.len() != "md"@.len());
        assert("png"@.len() != "markdown"@.len());
        assert("png"@[0] != "txt"@[0]);
        assert("png"@[0] != "log"@[0]);
        assert("png"@.len() != "rs"@.len());
        assert("png"@.len() != "py"@.len());
        assert("png"@.len() != "js"@.len());
        assert("png"@.len() != "ts"@.len());
        assert("png"@.len() != "go"@.len());
        assert("png"@.len() != "c"@.len());
        assert("png"@[0] != "cpp"@[0]);
        assert("png"@.len() != "java"@.len());
    }
    assert(format_of("jpg"@) == Format::Image) by {
        assert("jpg"@[0] != "pdf"@[0]);
        assert("jpg"@.len() != "docx"@.len());
        assert("jpg"@.len() != "xlsx"@.len());
        assert("jpg"@[0] != "xls"@[0]);
        assert("jpg"@[0] != "csv"@[0]);
        assert("jpg"@.len() != "json"@.len());
        assert("jpg"@[0] != "xml"@[0]);
        assert("jpg"@.len() != "html"@.len());
        assert("jpg"@[0] != "htm"@[0]);
        assert("jpg"@.len() != "md"@.len());
        assert("jpg"@.len() != "markdown"@.len());
        assert("jpg"@[0] != "txt"@[0]);
        assert("jpg"@[0] != "log"@[0]);
        assert("jpg"@.len() != "rs"@.len());
        assert("jpg"@.len() != "py"@.len());
        assert("jpg"@.len() != "js"@.len());
        assert("jpg"@.len() != "ts"@.len());
        assert("jpg"@.len() != "go"@.len());
        assert("jpg"@.len() != "c"@.len());
        assert("jpg"@[0] != "cpp"@[0]);
        assert("jpg"@.len() != "java"@.len());
        assert("jpg"@[0] != "png"@[0]);
    }
    assert(format_of("jpeg"@) == Format::Image) by {
        assert("jpeg"@.len() != "pdf"@.len());
        assert("jpeg"@[0] != "docx"@[0]);
        assert("jpeg"@[0] != "xlsx"@[0]);
        assert("jpeg"@.len() != "xls"@.len());
        assert("jpeg"@.len() != "csv"@.len());
        assert("jpeg"@[1] != "json"@[1]);
        assert("jpeg"@.len() != "xml"@.len());
        assert("jpeg"@[0] != "html"@[0]);
        assert("jpeg"@.len() != "htm"@.len());
        assert("jpeg"@.len() != "md"@.len());
        assert("jpeg"@.len() != "markdown"@.len());
        assert("jpeg"@.len() != "txt"@.len());
        assert("jpeg"@.len() != "log"@.len());
        assert("jpeg"@.len() != "rs"@.len());
        assert("jpeg"@.len() != "py"@.len());
        assert("jpeg"@.len() != "js"@.len());
        assert("jpeg"@.len() != "ts"@.len());
        assert("jpeg"@.len() != "go"@.len());
        assert("jpeg"@.len() != "c"@.len());
        assert("jpeg"@.len() != "cpp"@.len());
        assert("jpeg"@[1] != "java"@[1]);
        assert("jpeg"@.len() != "png"@.len());
        assert("jpeg"@.len() != "jpg"@.len());
    }
    assert(format_of("bmp"@) == Format::Image) by {
        assert("bmp"@[0] != "pdf"@[0]);
        assert("bmp"@.len() != "docx"@.len());
        assert("bmp"@.len() != "xlsx"@.len());
        assert("bmp"@[0] != "xls"@[0]);
        assert("bmp"@[0] != "csv"@[0]);
        assert("bmp"@.len() != "json"@.len());
        assert("bmp"@[0] != "xml"@[0]);
        assert("bmp"@.len() != "html"@.len());
        assert("bmp"@[0] != "htm"@[0]);
        assert("bmp"@.len() != "md"@.len());
        assert("bmp"@.len() != "markdown"@.len());
        assert("bmp"@[0] != "txt"@[0]);
        assert("bmp"@[0] != "log"@[0]);
        assert("bmp"@.len() != "rs"@.len());
        assert("bmp"@.len() != "py"@.len());
        assert("bmp"@.len() != "js"@.len());
        assert("bmp"@.len() != "ts"@.len());
        assert("bmp"@.len() != "go"@.len());
        assert("bmp"@.len() != "c"@.len());
        assert("bmp"@[0] != "cpp"@[0]);
        assert("bmp"@.len() != "java"@.len());
        assert("bmp"@[0] != "png"@[0]);
        assert("bmp"@[0] != "jpg"@[0]);
        assert("bmp"@.len() != "jpeg"@.len());
    }
    assert(format_of("tiff"@) == Format::Image) by {
        assert("tiff"@.len() != "pdf"@.len());
        assert("tiff"@[0] != "docx"@[0]);
        assert("tiff"@[0] != "xlsx"@[0]);
        assert("tiff"@.len() != "xls"@.len());
        assert("tiff"@.len() != "csv"@.len());
        assert("tiff"@[0] != "json"@[0]);
        assert("tiff"@.len() != "xml"@.len());
        assert("tiff"@[0] != "html"@[0]);
        assert("tiff"@.len() != "htm"@.len());
        assert("tiff"@.len() != "md"@.len());
        assert("tiff"@.len() != "markdown"@.len());
        assert("tiff"@.len() != "txt"@.len());
        assert("tiff"@.len() != "log"@.len());
        assert("tiff"@.len() != "rs"@.len());
        assert("tiff"@.len() != "py"@.len());
        assert("tiff"@.len() != "js"@.len());
        assert("tiff"@.len() != "ts"@.len());
        assert("tiff"@.len() != "go"@.len());
        assert("tiff"@.len() != "c"@.len());
        assert("tiff"@.len() != "cpp"@.len());
        assert("tiff"@[0] != "java"@[0]);
        assert("tiff"@.len() != "png"@.len());
        assert("tiff"@.len() != "jpg"@.len());
        assert("tiff"@[0] != "jpeg"@[0]);
        assert("tiff"@.len() != "bmp"@.len());
    }
    assert(format_of("webp"@) == Format::Image) by {
        assert("webp"@.len() != "pdf"@.len());
        assert("webp"@[0] != "docx"@[0]);
        assert("webp"@[0] != "xlsx"@[0]);
        assert("webp"@.len() != "xls"@.len());
        assert("webp"@.len() != "csv"@.len());
        assert("webp"@[0] != "json"@[0]);
        assert("webp"@.len() != "xml"@.len());
        assert("webp"@[0] != "html"@[0]);
        assert("webp"@.len() != "htm"@.len());
        assert("webp"@.len() != "md"@.len());
        assert("webp"@.len() != "markdown"@.len());
        assert("webp"@.len() != "txt"@.len());
        assert("webp"@.len() != "log"@.len());
        assert("webp"@.len() != "rs"@.len());
        assert("webp"@.len() != "py"@.len());
        assert("webp"@.len() != "js"@.len());
        assert("webp"@.len() != "ts"@.len());
        assert("webp"@.len() != "go"@.len());
        assert("webp"@.len() != "c"@.len());
        assert("webp"@.len() != "cpp"@.len());
        assert("webp"@[0] != "java"@[0]);
        assert("webp"@.len() != "png"@.len());
        assert("webp"@.len() != "jpg"@.len());
        assert("webp"@[0] != "jpeg"@[0]);
        assert("webp"@.len() != "bmp"@.len());
        assert("webp"@[0] != "tiff"@[0]);
    }
    assert(format_of("mp3"@) == Format::Audio) by {
        assert("mp3"@[0] != "pdf"@[0]);
        assert("mp3"@.len() != "docx"@.len());
        assert("mp3"@.len() != "xlsx"@.len());
        assert("mp3"@[0] != "xls"@[0]);
        assert("mp3"@[0] != "csv"@[0]);
        assert("mp3"@.len() != "json"@.len());
        assert("mp3"@[0] != "xml"@[0]);
        assert("mp3"@.len() != "html"@.len());
        assert("mp3"@[0] != "htm"@[0]);
        assert("mp3"@.len() != "md"@.len());
        assert("mp3"@.len() != "markdown"@.len());
        assert("mp3"@[0] != "txt"@[0]);
        assert("mp3"@[0] != "log"@[0]);
        assert("mp3"@.len() != "rs"@.len());
        assert("mp3"@.len() != "py"@.len());
        assert("mp3"@.len() != "js"@.len());
        assert("mp3"@.len() != "ts"@.len());
        assert("mp3"@.len() != "go"@.len());
        assert("mp3"@.len() != "c"@.len());
        assert("mp3"@[0] != "cpp"@[0]);
        assert("mp3"@.len() != "java"@.len());
        assert("mp3"@[0] != "png"@[0]);
        assert("mp3"@[0] != "jpg"@[0]);
        assert("mp3"@.len() != "jpeg"@.len());
        assert("mp3"@[0] != "bmp"@[0]);
        assert("mp3"@.len() != "tiff"@.len());
        assert("mp3"@.len() != "webp"@.len());
    }
    assert(format_of("wav"@) == Format::Audio) by {
        assert("wav"@[0] != "pdf"@[0]);
        assert("wav"@.len() != "docx"@.len());
        assert("wav"@.len() != "xlsx"@.len());
        assert("wav"@[0] != "xls"@[0]);
        assert("wav"@[0] != "csv"@[0]);
        assert("wav"@.len() != "json"@.len());
        assert("wav"@[0] != "xml"@[0]);
        assert("wav"@.len() != "html"@.len());
        assert("wav"@[0] != "htm"@[0]);
        assert("wav"@.len() != "md"@.len());
        assert("wav"@.len() != "markdown"@.len());
        assert("wav"@[0] != "txt"@[0]);
        assert("wav"@[0] != "log"@[0]);
        assert("wav"@.len() != "rs"@.len());
        assert("wav"@.len() != "py"@.len());
        assert("wav"@.len() != "js"@.len());
        assert("wav"@.len() != "ts"@.len());
        assert("wav"@.len() != "go"@.len());
        assert("wav"@.len() != "c"@.len());
        assert("wav"@[0] != "cpp"@[0]);
        assert("wav"@.len() != "java"@.len());
        assert("wav"@[0] != "png"@[0]);
        assert("wav"@[0] != "jpg"@[0]);
        assert("wav"@.len() != "jpeg"@.len());
        assert("wav"@[0] != "bmp"@[0]);
        assert("wav"@.len() != "tiff"@.len());
        assert("wav"@.len() != "webp"@.len());
        assert("wav"@[0] != "mp3"@[0]);
    }
    assert(format_of("ogg"@) == Format::Audio) by {
        assert("ogg"@[0] != "pdf"@[0]);
        assert("ogg"@.len() != "docx"@.len());
        assert("ogg"@.len() != "xlsx"@.len());
        assert("ogg"@[0] != "xls"@[0]);
        assert("ogg"@[0] != "csv"@[0]);
        assert("ogg"@.len() != "json"@.len());
        assert("ogg"@[0] != "xml"@[0]);
        assert("ogg"@.len() != "html"@.len());
        assert("ogg"@[0] != "htm"@[0]);
        assert("ogg"@.len() != "md"@.len());
        assert("ogg"@.len() != "markdown"@.len());
        assert("ogg"@[0] != "txt"@[0]);
        assert("ogg"@[0] != "log"@[0]);
        assert("ogg"@.len() != "rs"@.len());
        assert("ogg"@.len() != "py"@.len());
        assert("ogg"@.len() != "js"@.len());
        assert("ogg"@.len() != "ts"@.len());
        assert("ogg"@.len() != "go"@.len());
        assert("ogg"@.len() != "c"@.len());
        assert("ogg"@[0] != "cpp"@[0]);
        assert("ogg"@.len() != "java"@.len());
        assert("ogg"@[0] != "png"@[0]);
        assert("ogg"@[0] != "jpg"@[0]);
        assert("ogg"@.len() != "jpeg"@.len());
        assert("ogg"@[0] != "bmp"@[0]);
        assert("ogg"@.len() != "tiff"@.len());
        assert("ogg"@.len() != "webp"@.len());
        assert("ogg"@[0] != "mp3"@[0]);
        assert("ogg"@[0] != "wav"@[0]);
    }
    assert(format_of("m4a"@) == Format::Audio) by {
        assert("m4a"@[0] != "pdf"@[0]);
        assert("m4a"@.len() != "docx"@.len());
        assert("m4a"@.len() != "xlsx"@.len());
        assert("m4a"@[0] != "xls"@[0]);
        assert("m4a"@[0] != "csv"@[0]);
        assert("m4a"@.len() != "json"@.len());
        assert("m4a"@[0] != "xml"@[0]);
        assert("m4a"@.len() != "html"@.len());
        assert("m4a"@[0] != "htm"@[0]);
        assert("m4a"@.len() != "md"@.len());
        assert("m4a"@.len() != "markdown"@.len());
        assert("m4a"@[0] != "txt"@[0]);
        assert("m4a"@[0] != "log"@[0]);
        assert("m4a"@.len() != "rs"@.len());
        assert("m4a"@.len() != "py"@.len());
        assert("m4a"@.len() != "js"@.len());
        assert("m4a"@.len() != "ts"@.len());
        assert("m4a"@.len() != "go"@.len());
        assert("m4a"@.len() != "c"@.len());
        assert("m4a"@[0] != "cpp"@[0]);
        assert("m4a"@.len() != "java"@.len());
        assert("m4a"@[0] != "png"@[0]);
        assert("m4a"@[0] != "jpg"@[0]);
        assert("m4a"@.len() != "jpeg"@.len());
        assert("m4a"@[0] != "bmp"@[0]);
        assert("m4a"@.len() != "tiff"@.len());
        assert("m4a"@.len() != "webp"@.len());
        assert("m4a"@[1] != "mp3"@[1]);
        assert("m4a"@[0] != "wav"@[0]);
        assert("m4a"@[0] != "ogg"@[0]);
    }
    assert(format_of("flac"@) == Format::Audio) by {
        assert("flac"@.len() != "pdf"@.len());
        assert("flac"@[0] != "docx"@[0]);
        assert("flac"@[0] != "xlsx"@[0]);
        assert("flac"@.len() != "xls"@.len());
        assert("flac"@.len() != "csv"@.len());
        assert("flac"@[0] != "json"@[0]);
        assert("flac"@.len() != "xml"@.len());
        assert("flac"@[0] != "html"@[0]);
        assert("flac"@.len() != "htm"@.len());
        assert("flac"@.len() != "md"@.len());
        assert("flac"@.len() != "markdown"@.len());
        assert("flac"@.len() != "txt"@.len());
        assert("flac"@.len() != "log"@.len());
        assert("flac"@.len() != "rs"@.len());
        assert("flac"@.len() != "py"@.len());
        assert("flac"@.len() != "js"@.len());
        assert("flac"@.len() != "ts"@.len());
        assert("flac"@.len() != "go"@.len());
        assert("flac"@.len() != "c"@.len());
        assert("flac"@.len() != "cpp"@.len());
        assert("flac"@[0] != "java"@[0]);
        assert("flac"@.len() != "png"@.len());
        assert("flac"@.len() != "jpg"@.len());
        assert("flac"@[0] != "jpeg"@[0]);
        assert("flac"@.len() != "bmp"@.len());
        assert("flac"@[0] != "tiff"@[0]);
        assert("flac"@[0] != "webp"@[0]);
        assert("flac"@.len() != "mp3"@.len());
        assert("flac"@.len() != "wav"@.len());
        assert("flac"@.len() != "ogg"@.len());
        assert("flac"@.len() != "m4a"@.len());
    }
    assert(format_of(""@) == Format::Unknown) by {
        assert(""@.len() != "pdf"@.len());
        assert(""@.len() != "docx"@.len());
        assert(""@.len() != "xlsx"@.len());
        assert(""@.len() != "xls"@.len());
        assert(""@.len() != "csv"@.len());
        assert(""@.len() != "json"@.len());
        assert(""@.len() != "xml"@.len());
        assert(""@.len() != "html"@.len());
        assert(""@.len() != "htm"@.len());
        assert(""@.len() != "md"@.len());
        assert(""@.len() != "markdown"@.len());
        assert(""@.len() != "txt"@.len());
        assert(""@.len() != "log"@.len());
        assert(""@.len() != "rs"@.len());
        assert(""@.len() != "py"@.len());
        assert(""@.len() != "js"@.len());
        assert(""@.len() != "ts"@.len());
        assert(""@.len() != "go"@.len());
        assert(""@.len() != "c"@.len());
        assert(""@.len() != "cpp"@.len());
        assert(""@.len() != "java"@.len());
        assert(""@.len() != "png"@.len());
        assert(""@.len() != "jpg"@.len());
        assert(""@.len() != "jpeg"@.len());
        assert(""@.len() != "bmp"@.len());
        assert(""@.len() != "tiff"@.len());
        assert(""@.len() != "webp"@.len());
        assert(""@.len() != "mp3"@.len());
        assert(""@.len() != "wav"@.len());
        assert(""@.len() != "ogg"@.len());
        assert(""@.len() != "m4a"@.len());
        assert(""@.len() != "flac"@.len());
    }
    assert(format_of("PDF"@) == Format::Unknown) by {
        assert("PDF"@[0] != "pdf"@[0]);
        assert("PDF"@.len() != "docx"@.len());
        assert("PDF"@.len() != "xlsx"@.len());
        assert("PDF"@[0] != "xls"@[0]);
        assert("PDF"@[0] != "csv"@[0]);
        assert("PDF"@.len() != "json"@.len());
        assert("PDF"@[0] != "xml"@[0]);
        assert("PDF"@.len() != "html"@.len());
        assert("PDF"@[0] != "htm"@[0]);
        assert("PDF"@.len() != "md"@.len());
        assert("PDF"@.len() != "markdown"@.len());
        assert("PDF"@[0] != "txt"@[0]);
        assert("PDF"@[0] != "log"@[0]);
        assert("PDF"@.len() != "rs"@.len());
        assert("PDF"@.len() != "py"@.len());
        assert("PDF"@.len() != "js"@.len());
        assert("PDF"@.len() != "ts"@.len());
        assert("PDF"@.len() != "go"@.len());
        assert("PDF"@.len() != "c"@.len());
        assert("PDF"@[0] != "cpp"@[0]);
        assert("PDF"@.len() != "java"@.len());
        assert("PDF"@[0] != "png"@[0]);
        assert("PDF"@[0] != "jpg"@[0]);
        assert("PDF"@.len() != "jpeg"@.len());
        assert("PDF"@[0] != "bmp"@[0]);
        assert("PDF"@.len() != "tiff"@.len());
        assert("PDF"@.len() != "webp"@.len());
        assert("PDF"@[0] != "mp3"@[0]);
        assert("PDF"@[0] != "wav"@[0]);
        assert("PDF"@[0] != "ogg"@[0]);
        assert("PDF"@[0] != "m4a"@[0]);
        assert("PDF"@.len() != "flac"@.len());
    }
}

/// Image and audio files are acknowledged, never read as text: for a source
/// whose lowercased extension names an image (or audio) format, ingestion
/// succeeds with the note of the file's size and source, whatever the bytes.
pub proof fn law_media_is_acknowledged(bytes: Seq<u8>, source: Seq<char>, pdf: Option<Result<String, String>>, d: IngestedDoc, e: IngestError)
    ensures
        ({
            let ext = lowercase(extension_spec(source));
            &&& (ext == "png"@ || ext == "jpg"@ || ext == "jpeg"@ || ext == "bmp"@ || ext == "tiff"@ || ext == "webp"@)
                ==> !ingest_err(bytes, source, pdf, e) && (ingest_ok(bytes, source, pdf, d) ==> d.text@ == image_note(bytes.len(), source) && d.mime@ == "image/*"@)
            &&& (ext == "mp3"@ || ext == "wav"@ || ext == "ogg"@ || ext == "m4a"@ || ext == "flac"@)
                ==> !ingest_err(bytes, source, pdf, e) && (ingest_ok(bytes, source, pdf, d) ==> d.text@ == audio_note(bytes.len(), source) && d.mime@ == "audio/*"@)
        }),
{
    law_extension_table();
}

// ─── Adding ingested documents to an engine ──────────────────────────────────

/// The source name used for a fetched URL: the URL itself when it holds a
/// `.`, else the URL with `.html` appended, so that it is read as HTML.
pub open spec fn url_source_spec(url: Seq<char>) -> Seq<char> {
    if url.contains('.') {
        url
    } else {
        url + ".html"@
    }
}

/// The source name used for a fetched URL.
pub fn url_source(url: &str) -> (s: String)
    ensures
        s@ == url_source_spec(url@),
{
    let cs = str_chars(url);
    let mut has_dot = false;
    for i in 0..cs.len()
        invariant
            cs@ == url@,
            has_dot <==> exists|j: int| 0 <= j < i && cs@[j] == '.',
    {
        if cs[i] == '.' {
            has_dot = true;
        }
    }
    let mut s = String::from_str(url);
    if !has_dot {
        s.append(".html");
    }
    s
}

/// The id of chunk `i` of an ingested document: `uuid-i`.
pub open spec fn chunk_id(uuid: Seq<char>, i: nat) -> Seq<char> {
    uuid + seq!['-'] + decimal(i)
}

/// The words of all the chunks, as item memory keys.
pub open spec fn chunks_vocab(cs: Seq<Seq<char>>) -> Set<Seq<char>>
    decreases cs.len(),
{
    if cs.len() == 0 {
        Set::empty()
    } else {
        chunks_vocab(cs.drop_last()).union(encode_vocab(cs.last()))
    }
}

impl HDCEngine {
    /// Adds each chunk of an ingested document as a document of its own, with
    /// id `uuids[i]-i`, the given label and source, and the document's MIME
    /// type; returns the ids in chunk order.
    pub fn add_ingested(&mut self, doc: &IngestedDoc, uuids: &Vec<String>, label: &str, source: &str) -> (ids: Vec<String>)
        requires
            uuids@.len() == doc.chunks@.len(),
        ensures
            ids@.len() == doc.chunks@.len(),
            forall|i: int| 0 <= i < ids@.len() ==> (#[trigger] ids@[i])@ == chunk_id(uuids@[i]@, i as nat),
            final(self).docs@.len() == old(self).docs@.len() + doc.chunks@.len(),
            forall|i: int| 0 <= i < old(self).docs@.len() ==> final(self).docs@[i] == old(self).docs@[i],
            forall|i: int|
                0 <= i < doc.chunks@.len() ==> {
                    let d = #[trigger] final(self).docs@[old(self).docs@.len() + i];
                    &&& d.id@ == chunk_id(uuids@[i]@, i as nat)
                    &&& d.text@ == doc.chunks@[i]@
                    &&& d.label@ == label@
                    &&& d.source@ == source@
                    &&& d.mime@ == doc.mime@
                    &&& d.hv@ == encode_spec(doc.chunks@[i]@)
                },
            final(self).mem@ == old(self).mem@.union(chunks_vocab(strings_view(doc.chunks@))),
    {
        let ghost n0 = self.docs@.len();
        let ghost docs0 = self.docs@;
        let ghost mem0 = self.mem@;
        let mut ids: Vec<String> = Vec::new();
        for i in 0..doc.chunks.len()
            invariant
                uuids@.len() == doc.chunks@.len(),
                ids@.len() == i,
                forall|j: int| 0 <= j < i ==> (#[trigger] ids@[j])@ == chunk_id(uuids@[j]@, j as nat),
                self.docs@.len() == n0 + i,
                forall|j: int| 0 <= j < n0 ==> self.docs@[j] == docs0[j],
                forall|j: int|
                    0 <= j < i ==> {
                        let d = #[trigger] self.docs@[n0 + j];
                        &&& d.id@ == chunk_id(uuids@[j]@, j as nat)
                        &&& d.text@ == doc.chunks@[j]@
                        &&& d.label@ == label@
                        &&& d.source@ == source@
                        &&& d.mime@ == doc.mime@
                        &&& d.hv@ == encode_spec(doc.chunks@[j]@)
                    },
                self.mem@ == mem0.union(chunks_vocab(strings_view(doc.chunks@).take(i as int))),
        {
            let mut id = uuids[i].clone();
            string_push(&mut id, '-');
            push_decimal(&mut id, i as u64);
            assert(id@ =~= chunk_id(uuids@[i as int]@, i as nat));
            let ghost before = self.docs@;
            let ghost mem_before = self.mem@;
            self.add_document(id.clone(), doc.chunks[i].as_str(), label, source, doc.mime.as_str());
            ids.push(id);
            proof {
                let cs = strings_view(doc.chunks@);
                assert(cs.take(i + 1).drop_last() =~= cs.take(i as int));
                assert(cs.take(i + 1).last() == doc.chunks@[i as int]@);
                assert(self.mem@ =~= mem0.union(chunks_vocab(cs.take(i + 1))));
                assert(self.docs@[n0 + i] == self.docs@.last());
            }
        }
        proof {
            let cs = strings_view(doc.chunks@);
            assert(cs.take(doc.chunks@.len() as int) =~= cs);
        }
        ids
    }
}

// ─── Dispatch ────────────────────────────────────────────────────────────────

/// What a successful ingestion holds, by the source's format.
pub open spec fn ingest_ok(
    bytes: Seq<u8>,
    source: Seq<char>,
    pdf: Option<Result<String, String>>,
    d: IngestedDoc,
) -> bool {
    match source_format(source) {
        Format::Pdf => pdf matches Some(Ok(t)) && doc_fields(d, clean_spec(t@), source, "application/pdf"@),
        Format::Docx => docx_blocks_of(bytes) matches Ok(b) && doc_fields(
            d,
            clean_spec(docx_text(b)),
            source,
            "application/vnd.openxmlformats-officedocument.wordprocessingml.document"@,
        ),
        Format::Spreadsheet => xlsx_sheets_of(bytes) matches Some(sh) && doc_fields(
            d,
            sheets_text(sh),
            source,
            "application/vnd.openxmlformats-officedocument.spreadsheetml.sheet"@,
        ),
        Format::Csv => doc_fields(d, csv_text(csv_table_of(bytes)), source, "text/csv"@),
        Format::Json => json_tree_of(bytes) matches Some(n) && doc_fields(
            d,
            join_sep(flatten_spec(n, seq![]), '\n'),
            source,
            "application/json"@,
        ),
        Format::Xml => vstd::utf8::valid_utf8(bytes) && doc_fields(
            d,
            clean_spec(strip_scan(vstd::utf8::decode_utf8(bytes)).0),
            source,
            "application/xml"@,
        ),
        Format::Html => vstd::utf8::valid_utf8(bytes) && doc_fields(
            d,
            html_text(vstd::utf8::decode_utf8(bytes)),
            source,
            "text/html"@,
        ),
        Format::Markdown => doc_fields(d, clean_spec(utf8_lossy(bytes)), source, "text/markdown"@),
        Format::Plain => doc_fields(d, clean_spec(utf8_lossy(bytes)), source, "text/plain"@),
        Format::Code => doc_fields(d, clean_spec(utf8_lossy(bytes)), source, "text/code"@),
        Format::Image => doc_fields(d, image_note(bytes.len(), source), source, "image/*"@),
        Format::Audio => doc_fields(d, audio_note(bytes.len(), source), source, "audio/*"@),
        Format::Unknown => if vstd::utf8::valid_utf8(bytes) {
            doc_fields(d, clean_spec(utf8_lossy(bytes)), source, "text/plain"@)
        } else {
            doc_fields(d, binary_note(bytes.len(), source), source, "application/octet-stream"@)
        },
    }
}

/// When ingestion fails, by the source's format, and with which error: PDF,
/// DOCX, spreadsheet and JSON files fail when their reader does (for a PDF,
/// with the message the caller's reading gave); XML and HTML fail exactly on
/// invalid UTF-8; every other format succeeds.
pub open spec fn ingest_err(
    bytes: Seq<u8>,
    source: Seq<char>,
    pdf: Option<Result<String, String>>,
    e: IngestError,
) -> bool {
    match source_format(source) {
        Format::Pdf => pdf matches Some(Err(m)) && e matches IngestError::Pdf(m2) && m2@ == m@,
        Format::Docx => (docx_blocks_of(bytes) == Err::<Seq<DocBlock>, DocxStage>(DocxStage::Open) && e is DocxOpen)
            || (docx_blocks_of(bytes) == Err::<Seq<DocBlock>, DocxStage>(DocxStage::Parse) && e is DocxParse),
        Format::Spreadsheet => xlsx_sheets_of(bytes) is None && e is Xlsx,
        Format::Json => json_tree_of(bytes) is None && e is Json,
        Format::Xml => !vstd::utf8::valid_utf8(bytes) && e is XmlUtf8,
        Format::Html => !vstd::utf8::valid_utf8(bytes) && e is HtmlUtf8,
        _ => false,
    }
}

/// The reader chosen for a source.
pub fn source_format_of(source: &str) -> (f: Format)
    ensures
        f == source_format(source@),
{
    let ext = extension(source);
    let lower = str_to_lowercase(ext.as_str());
    format_for(&lower)
}

/// Ingests raw bytes, choosing the reader by the extension of `source` (a file
/// name or URL), lowercased. Unknown extensions are read as text when the bytes
/// are valid UTF-8, and summarised as binary data otherwise. For a PDF source,
/// `pdf` is what the caller's PDF reader gave for `bytes` (its text or its
/// message); it is not used for other sources.
pub fn ingest_bytes(bytes: &[u8], source: &str, pdf: Option<Result<String, String>>) -> (r: Result<
    IngestedDoc,
    IngestError,
>)
    requires
        source_format(source@) == Format::Pdf ==> pdf is Some,
    ensures
        match r {
            Ok(d) => ingest_ok(bytes@, source@, pdf, d),
            Err(e) => ingest_err(bytes@, source@, pdf, e),
        },
        source_format(source@) == Format::Html ==> forall|p: Seq<char>, t: Seq<char>, b: Seq<char>, q: Seq<char>|
            #![trigger tagged_text(p, t, b, q)]
            vstd::utf8::valid_utf8(bytes@) && one_element_amid_text(vstd::utf8::decode_utf8(bytes@), p, t, b, q)
                ==> (r matches Ok(d) && d.text@ == text_without_element(p, q)),
{
    let f = source_format_of(source);
    match f {
        Format::Pdf => match pdf {
            Some(extracted) => ingest_pdf(extracted, source),
            None => Err(IngestError::Pdf(String::new())),
        },
        Format::Docx => ingest_docx(bytes, source),
        Format::Spreadsheet => ingest_xlsx(bytes, source),
        Format::Csv => Ok(ingest_csv(bytes, source)),
        Format::Json => ingest_json(bytes, source),
        Format::Xml => ingest_xml(bytes, source),
        Format::Html => ingest_html(bytes, source),
        Format::Markdown => Ok(ingest_text(bytes, source, "text/markdown")),
        Format::Plain => Ok(ingest_text(bytes, source, "text/plain")),
        Format::Code => Ok(ingest_text(bytes, source, "text/code")),
        Format::Image => Ok(ingest_image(bytes, source)),
        Format::Audio => Ok(ingest_audio(bytes, source)),
        Format::Unknown => {
            match str_from_utf8(bytes) {
                Ok(_) => Ok(ingest_text(bytes, source, "text/plain")),
                Err(_) => {
                    let text = placeholder_text("[Binary data: ", bytes.len(), source, "]");
                    Ok(
                        IngestedDoc::new(
                            text,
                            String::from_str(source),
                            String::from_str("application/octet-stream"),
                        ),
                    )
                },
            }
        },
    }
}

} // verus!
