//! Plain models of what the outside document readers return, and the trusted
//! wrappers that call them.

use vstd::prelude::*;
use calamine::{open_workbook_from_rs, Reader, Xlsx, XlsxError};
use docx_rust::DocxFile;
use std::io::Cursor;
use docx_rust::document::{BodyContent, ParagraphContent, RunContent};

verus! {

/// A piece of a DOCX run: literal text, or anything else.
pub enum DocRunItem {
    Text(String),
    Other,
}

/// A piece of a DOCX paragraph: a run of items, or anything else.
pub enum DocInline {
    Run(Vec<DocRunItem>),
    Other,
}

/// A block of a DOCX body: a paragraph, or anything else (tables, sections, ...).
pub enum DocBlock {
    Paragraph(Vec<DocInline>),
    Other,
}

/// Why a DOCX file could not be read.
pub enum DocxFailure {
    /// The container could not be opened (message of the reader's error).
    Open(String),
    /// The document could not be parsed (message of the reader's error).
    Parse(String),
}

/// A worksheet: its name, and its rows of cell texts when its range could be read.
pub struct Sheet {
    pub name: String,
    pub rows: Option<Vec<Vec<String>>>,
}

/// A CSV table: the header row when it could be read, and each record, or
/// `None` for a record that could not be read.
pub struct CsvTable {
    pub headers: Option<Vec<String>>,
    pub records: Vec<Option<Vec<String>>>,
}

/// A JSON value: an object's members in the order the parser keeps them, an
/// array's items, or a scalar in its JSON text form (strings quoted and escaped).
pub enum JsonNode {
    Object(Vec<(String, JsonNode)>),
    Array(Vec<JsonNode>),
    Scalar(String),
}

/// The step at which reading a DOCX file fails.
pub enum DocxStage {
    Open,
    Parse,
}

/// What `docx_rust` reads from a DOCX file: the body blocks, or the step
/// that failed.
pub uninterp spec fn docx_blocks_of(bytes: Seq<u8>) -> Result<Seq<DocBlock>, DocxStage>;

/// `docx_rust::DocxFile::from_reader` then `DocxFile::parse`: the outcome is
/// named `docx_blocks_of(bytes)`: on success the body's blocks, paragraph runs
/// and run texts, one for one; on failure the step that failed, returned with
/// the error's debug text. Which files fail is not written out.
#[verifier::external_body]
pub(crate) fn docx_blocks(bytes: &[u8]) -> (r: Result<Vec<DocBlock>, DocxFailure>)
    ensures
        match r {
            Ok(v) => docx_blocks_of(bytes@) == Ok::<Seq<DocBlock>, DocxStage>(v@),
            Err(DocxFailure::Open(_)) => docx_blocks_of(bytes@) == Err::<Seq<DocBlock>, DocxStage>(DocxStage::Open),
            Err(DocxFailure::Parse(_)) => docx_blocks_of(bytes@) == Err::<Seq<DocBlock>, DocxStage>(DocxStage::Parse),
        },
{
    let file = DocxFile::from_reader(Cursor::new(bytes))
        .map_err(|e| DocxFailure::Open(format!("{:?}", e)))?;
    let docx = file.parse().map_err(|e| DocxFailure::Parse(format!("{:?}", e)))?;
    Ok(docx.document.body.content.iter().map(|c| match c {
        BodyContent::Paragraph(p) => DocBlock::Paragraph(p.content.iter().map(|pc| match pc {
            ParagraphContent::Run(run) => DocInline::Run(run.content.iter().map(|rc| match rc {
                RunContent::Text(t) => DocRunItem::Text(t.text.to_string()),
                _ => DocRunItem::Other,
            }).collect()),
            _ => DocInline::Other,
        }).collect()),
        _ => DocBlock::Other,
    }).collect())
}

/// What `calamine` reads from an XLSX workbook: its worksheets, or `None`
/// when the workbook cannot be opened.
pub uninterp spec fn xlsx_sheets_of(bytes: Seq<u8>) -> Option<Seq<Sheet>>;

/// `calamine::open_workbook_from_rs` (as `Xlsx`), `Reader::sheet_names` and
/// `Reader::worksheet_range`: the outcome is named `xlsx_sheets_of(bytes)`:
/// every sheet in order with its name and, when its range was read, every
/// row's cells in their display form; or `None` when opening fails, returned
/// with the error's message. Which files fail is not written out.
#[verifier::external_body]
pub(crate) fn xlsx_sheets(bytes: &[u8]) -> (r: Result<Vec<Sheet>, String>)
    ensures
        match r {
            Ok(v) => xlsx_sheets_of(bytes@) == Some(v@),
            Err(_) => xlsx_sheets_of(bytes@) is None,
        },
{
    let mut wb: Xlsx<_> = open_workbook_from_rs(Cursor::new(bytes)).map_err(|e: XlsxError| e.to_string())?;
    Ok(wb.sheet_names().into_iter().map(|name| {
        let rows = wb.worksheet_range(&name).ok()
            .map(|range| range.rows().map(|row| row.iter().map(|c| c.to_string()).collect()).collect());
        Sheet { name, rows }
    }).collect())
}

/// The table that a default `csv::Reader` reads from the bytes.
pub uninterp spec fn csv_table_of(bytes: Seq<u8>) -> CsvTable;

/// `csv::Reader::from_reader`, `Reader::headers` and `Reader::records`: the
/// header fields (or `None` when reading them failed) and every record's
/// fields (or `None` for a record that failed), named `csv_table_of(bytes)`.
#[verifier::external_body]
pub(crate) fn csv_table(bytes: &[u8]) -> (r: CsvTable)
    ensures
        r == csv_table_of(bytes@),
{
    let mut rdr = csv::Reader::from_reader(bytes);
    let headers = rdr.headers().ok().map(|h| h.iter().map(|f| f.to_string()).collect());
    let records = rdr.records().map(|rec| rec.ok().map(|r| r.iter().map(|f| f.to_string()).collect())).collect();
    CsvTable { headers, records }
}

/// What `serde_json` parses from the bytes: the value, or `None` when they
/// are not valid JSON.
pub uninterp spec fn json_tree_of(bytes: Seq<u8>) -> Option<JsonNode>;

/// `serde_json::from_slice` into `serde_json::Value`: the outcome is named
/// `json_tree_of(bytes)`: the value converted node for node (object members in
/// key order, scalars by their `Display` text), or `None` on a parse error,
/// returned with the error's message. The JSON grammar is not written out.
#[verifier::external_body]
pub(crate) fn json_tree(bytes: &[u8]) -> (r: Result<JsonNode, String>)
    ensures
        match r {
            Ok(n) => json_tree_of(bytes@) == Some(n),
            Err(_) => json_tree_of(bytes@) is None,
        },
{
    serde_json::from_slice::<serde_json::Value>(bytes).map(|v| json_node(&v)).map_err(|e| e.to_string())
}

/// `serde_json::Value`, carried opaquely.
#[verifier::external_type_specification]
#[verifier::external_body]
pub struct ExJsonValue(serde_json::Value);

/// Converts a parsed `serde_json::Value` node for node; part of `json_tree`.
#[verifier::external_body]
fn json_node(v: &serde_json::Value) -> JsonNode {
    match v {
        serde_json::Value::Object(m) => JsonNode::Object(m.iter().map(|(k, x)| (k.clone(), json_node(x))).collect()),
        serde_json::Value::Array(a) => JsonNode::Array(a.iter().map(json_node).collect()),
        _ => JsonNode::Scalar(v.to_string()),
    }
}

/// What `regex::Regex::new(pattern)` followed by `replace_all(s, rep)` gives:
/// `None` when the pattern does not compile.
pub uninterp spec fn regex_replaced(pattern: Seq<char>, s: Seq<char>, rep: Seq<char>) -> Option<Seq<char>>;

/// The pattern of `<script>` and `<style>` elements with their content, which
/// may span lines (`(?s)` lets `.` match a newline).
pub open spec fn script_style_regex() -> Seq<char> {
    "(?s)<(script|style)[^>]*>.*?</(script|style)>"@
}

/// `p`, then an element `<t>b</t>`, then `q`.
pub open spec fn tagged_text(p: Seq<char>, t: Seq<char>, b: Seq<char>, q: Seq<char>) -> Seq<char> {
    p + "<"@ + t + ">"@ + b + "</"@ + t + ">"@ + q
}

/// `regex::Regex::new` then `Regex::replace_all`: the replaced text, or `None`
/// when the pattern does not compile, named `regex_replaced(pattern, s, rep)`.
/// One fact of its matching (leftmost-first, `.*?` lazy) is stated for the
/// script and style pattern: a single `<script>` or `<style>` element whose
/// text holds no `<`, amid text that holds none either, is the only match and
/// is replaced, line breaks in it included. The general regex semantics are
/// not written out.
#[verifier::external_body]
pub(crate) fn regex_replace_all(pattern: &str, s: &str, rep: &str) -> (r: Option<String>)
    ensures
        match r {
            Some(t) => regex_replaced(pattern@, s@, rep@) == Some(t@),
            None => regex_replaced(pattern@, s@, rep@) is None,
        },
        match r {
            Some(x) => pattern@ == script_style_regex() ==> forall|p: Seq<char>, t: Seq<char>, b: Seq<char>, q: Seq<char>|
                #![trigger tagged_text(p, t, b, q)]
                (t == "script"@ || t == "style"@) && !p.contains('<') && !b.contains('<') && !q.contains('<')
                    && s@ == tagged_text(p, t, b, q) ==> x@ == p + rep@ + q,
            None => pattern@ != script_style_regex(),
        },
{
    regex::Regex::new(pattern).ok().map(|re| re.replace_all(s, rep).to_string())
}

/// The text `String::from_utf8_lossy` makes of bytes: their decoding, with
/// each invalid sequence replaced by U+FFFD.
pub uninterp spec fn utf8_lossy(bytes: Seq<u8>) -> Seq<char>;

/// `String::from_utf8_lossy`: valid UTF-8 is decoded as it is; the result for
/// other input is named `utf8_lossy(bytes)` and not written out here.
#[verifier::external_body]
pub(crate) fn string_from_utf8_lossy(bytes: &[u8]) -> (r: String)
    ensures
        r@ == utf8_lossy(bytes@),
        vstd::utf8::valid_utf8(bytes@) ==> r@ == vstd::utf8::decode_utf8(bytes@),
{
    String::from_utf8_lossy(bytes).to_string()
}

/// `std::str::from_utf8`: succeeds exactly on valid UTF-8, with the decoded
/// text; on failure the error's message.
#[verifier::external_body]
pub(crate) fn str_from_utf8(bytes: &[u8]) -> (r: Result<String, String>)
    ensures
        r is Ok <==> vstd::utf8::valid_utf8(bytes@),
        r matches Ok(t) ==> t@ == vstd::utf8::decode_utf8(bytes@),
{
    std::str::from_utf8(bytes).map(|s| s.to_string()).map_err(|e| e.to_string())
}

} // verus!
