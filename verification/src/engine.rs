//! The search engine: an ephemeral in-memory full-text index over records,
//! built and queried through tantivy.
//!
//! What the index holds is modelled as a multiset of (pointer, file, source)
//! triples, `source` being the record value's compact JSON text. Which
//! documents a query matches, and their scores, are tantivy's own: the
//! wrappers state only that every hit comes out of the index and that a
//! window is respected.

use vstd::prelude::*;

use tantivy::schema::document::Document;
use tantivy::schema::Value;

use crate::extract::{Record, RecordV, record_views};
use crate::json::{Json, JsonV, views_of_fields, views_of_list, lemma_views_of_fields,
    lemma_views_of_list, view_of};
use crate::options::MatchMode;
use crate::render::{compact_text_of, parse_json, parsed_json, render_compact};
use crate::results::{SearchResult, SearchResultV};
use crate::pointer::string_views;
use crate::text::{push_str_chars, string_from_chars};
use vstd::multiset::Multiset;

verus! {

/// Why a search could not be carried out.
#[derive(Clone, Copy, PartialEq, Eq, Structural, Debug)]
pub enum SearchError {
    /// The query (or regex) could not be parsed for the chosen mode.
    QueryCompile,
    /// The index machinery itself failed.
    Engine,
    /// No addressable object records were found in the inputs.
    EmptyCorpus,
}

impl SearchError {
    /// A short description of the error.
    pub fn message(&self) -> (r: String)
        ensures
            self is QueryCompile ==> r@ == "Failed to parse query"@,
            self is Engine ==> r@ == "Search engine failure"@,
            self is EmptyCorpus ==> r@ == "No JSON objects found in input"@,
    {
        match self {
            SearchError::QueryCompile => String::from_str("Failed to parse query"),
            SearchError::Engine => String::from_str("Search engine failure"),
            SearchError::EmptyCorpus => String::from_str("No JSON objects found in input"),
        }
    }
}

/// The search engine: a fresh in-memory tantivy index with a structured
/// per-field entry, a flattened all-text entry, and stored pointer, file and
/// source per document.
#[verifier::external_body]
pub struct Engine {
    index: tantivy::Index,
    content_field: tantivy::schema::Field,
    all_text_field: tantivy::schema::Field,
    pointer_field: tantivy::schema::Field,
    file_field: tantivy::schema::Field,
    source_field: tantivy::schema::Field,
}

/// What the engine's index holds: one (pointer, file, source) triple per
/// indexed record.
pub uninterp spec fn engine_docs(e: Engine) -> Multiset<(Seq<char>, Seq<char>, Seq<char>)>;

/// One document handed to the index: the record's address, file, serialised
/// value and flattened text.
pub struct IndexDoc {
    pub pointer: String,
    pub file: String,
    pub source: String,
    pub all_text: String,
}

/// The (pointer, file, source) triples of a batch of index documents.
pub open spec fn doc_triples(docs: Seq<IndexDoc>) -> Seq<(Seq<char>, Seq<char>, Seq<char>)> {
    docs.map_values(|d: IndexDoc| (d.pointer@, d.file@, d.source@))
}

/// The index triples of a list of records.
pub open spec fn record_triples(rs: Seq<RecordV>) -> Seq<(Seq<char>, Seq<char>, Seq<char>)> {
    rs.map_values(|r: RecordV| (r.pointer, r.file, compact_text_of(r.value)))
}

/// A search result drawn from the given index contents: its pointer and file
/// were indexed with some source text, and its value is that text's parse.
pub open spec fn from_index(
    docs: Multiset<(Seq<char>, Seq<char>, Seq<char>)>,
    r: SearchResultV,
) -> bool {
    exists|src: Seq<char>|
        #[trigger] docs.count((r.record.pointer, r.record.file, src)) > 0 && r.record.value
            == parsed_json(src)
}

/// One raw hit handed back by the index: stored fields plus the score as
/// numeric text.
struct RawRow {
    pointer: String,
    file: String,
    source: String,
    score: String,
}

#[verifier::external_type_specification]
#[verifier::external_body]
pub struct ExSearcher(tantivy::Searcher);

#[verifier::external_type_specification]
#[verifier::external_body]
pub struct ExDocAddress(tantivy::DocAddress);

#[verifier::external_type_specification]
#[verifier::external_body]
pub struct ExTantivyDocument(tantivy::TantivyDocument);

#[verifier::external_type_specification]
#[verifier::external_body]
pub struct ExField(tantivy::schema::Field);

/// Relies on tantivy's stored-field access: the first stored text of `field`
/// in `doc`, empty when there is none.
#[verifier::external_body]
fn stored_text(doc: &tantivy::TantivyDocument, field: tantivy::schema::Field) -> String {
    doc.get_first(field).and_then(|v| v.as_str().map(|s| s.to_string())).unwrap_or_default()
}

/// Relies on tantivy's Searcher::doc: reads one hit's stored pointer, file
/// and source back out of the index.
#[verifier::external_body]
fn fetch_row(
    searcher: &tantivy::Searcher,
    addr: tantivy::DocAddress,
    score: String,
    e: &Engine,
) -> Option<RawRow> {
    let doc: tantivy::TantivyDocument = searcher.doc(addr).ok()?;
    Some(RawRow {
        pointer: stored_text(&doc, e.pointer_field),
        file: stored_text(&doc, e.file_field),
        source: stored_text(&doc, e.source_field),
        score,
    })
}

/// Relies on str::to_lowercase: the result depends on the characters alone.
pub uninterp spec fn lower_of(s: Seq<char>) -> Seq<char>;

/// Relies on str::to_lowercase.
#[verifier::external_body]
pub fn lowercase(s: &str) -> (r: String)
    ensures
        r@ == lower_of(s@),
{
    s.to_lowercase()
}

impl Engine {
    /// Relies on tantivy's Schema::builder and Index::create_in_ram: a fresh,
    /// empty in-memory index.
    #[verifier::external_body]
    pub fn new() -> (r: Result<Engine, SearchError>)
        ensures
            match r {
                Ok(e) => engine_docs(e) == Multiset::<(Seq<char>, Seq<char>, Seq<char>)>::empty(),
                Err(_) => true,
            },
    {
        let indexing = tantivy::schema::TextFieldIndexing::default().set_tokenizer("default").set_index_option(tantivy::schema::IndexRecordOption::WithFreqsAndPositions);
        let json_options = tantivy::schema::JsonObjectOptions::default().set_indexing_options(indexing).set_stored();
        let mut builder = tantivy::schema::Schema::builder();
        let content_field = builder.add_json_field("content", json_options);
        let all_text_field = builder.add_text_field("_all", tantivy::schema::TEXT | tantivy::schema::STORED);
        let pointer_field = builder.add_text_field("_pointer", tantivy::schema::STRING | tantivy::schema::STORED);
        let file_field = builder.add_text_field("_file", tantivy::schema::STRING | tantivy::schema::STORED);
        let source_field = builder.add_text_field("_source", tantivy::schema::STORED);
        let index = tantivy::Index::create_in_ram(builder.build());
        Ok(Engine { index, content_field, all_text_field, pointer_field, file_field, source_field })
    }

    /// Relies on tantivy's IndexWriter: adds one document per entry (the
    /// structured content parsed from `source`, the flattened text, and the
    /// stored pointer/file/source), then commits. On success the index holds
    /// exactly the old triples plus the batch.
    #[verifier::external_body]
    fn index_batch(&mut self, docs: &Vec<IndexDoc>) -> (r: Result<(), SearchError>)
        ensures
            match r {
                Ok(_) => engine_docs(*final(self)) == engine_docs(*old(self)).add(
                    doc_triples(docs@).to_multiset(),
                ),
                Err(e) => e is Engine,
            },
    {
        let mut writer: tantivy::IndexWriter = self.index.writer(50_000_000).map_err(|_| SearchError::Engine)?;
        for d in docs.iter() {
            let parsed: serde_json::Value = serde_json::from_str(&d.source).unwrap_or(serde_json::Value::Null);
            let mut doc = tantivy::TantivyDocument::default();
            doc.add_object(self.content_field, content_object(parsed));
            doc.add_text(self.all_text_field, &d.all_text);
            doc.add_text(self.pointer_field, &d.pointer);
            doc.add_text(self.file_field, &d.file);
            doc.add_text(self.source_field, &d.source);
            writer.add_document(doc).map_err(|_| SearchError::Engine)?;
        }
        writer.commit().map_err(|_| SearchError::Engine)?;
        Ok(())
    }

    /// Relies on tantivy's QueryParser (conjunction by default) and searcher:
    /// parses the query over the all-text or structured field and returns up
    /// to `window` ranked hits out of the index.
    #[verifier::external_body]
    fn search_text(&self, query: &str, use_all: bool, window: usize) -> (r: Result<
        Vec<RawRow>,
        SearchError,
    >)
        requires
            window >= 1,
        ensures
            search_rows_ok(*self, window, r),
    {
        let reader = self.index.reader_builder().reload_policy(tantivy::ReloadPolicy::Manual).try_into().map_err(|_| SearchError::Engine)?;
        let searcher = reader.searcher();
        let field = if use_all { self.all_text_field } else { self.content_field };
        let mut parser = tantivy::query::QueryParser::for_index(&self.index, vec![field]);
        parser.set_conjunction_by_default();
        let q = parser.parse_query(query).map_err(|_| SearchError::QueryCompile)?;
        let top = searcher.search(&q, &tantivy::collector::TopDocs::with_limit(window).order_by_score()).map_err(|_| SearchError::Engine)?;
        Ok(top.into_iter().filter_map(|(s, a)| fetch_row(&searcher, a, format!("{}", s), self)).collect())
    }

    /// Relies on tantivy's FuzzyTermQuery (edit distance 2) over the all-text
    /// field: returns up to `window` ranked hits out of the index.
    #[verifier::external_body]
    fn search_fuzzy(&self, term_text: &str, window: usize) -> (r: Result<Vec<RawRow>, SearchError>)
        requires
            window >= 1,
        ensures
            search_rows_ok(*self, window, r),
    {
        let reader = self.index.reader_builder().reload_policy(tantivy::ReloadPolicy::Manual).try_into().map_err(|_| SearchError::Engine)?;
        let searcher = reader.searcher();
        let term = tantivy::Term::from_field_text(self.all_text_field, term_text);
        let q = tantivy::query::FuzzyTermQuery::new(term, 2, true);
        let top = searcher.search(&q, &tantivy::collector::TopDocs::with_limit(window).order_by_score()).map_err(|_| SearchError::Engine)?;
        Ok(top.into_iter().filter_map(|(s, a)| fetch_row(&searcher, a, format!("{}", s), self)).collect())
    }

    /// Relies on tantivy's RegexQuery over the all-text field: returns up to
    /// `window` ranked hits out of the index; an invalid pattern fails with a
    /// compile error.
    #[verifier::external_body]
    fn search_regex(&self, pattern: &str, window: usize) -> (r: Result<Vec<RawRow>, SearchError>)
        requires
            window >= 1,
        ensures
            search_rows_ok(*self, window, r),
    {
        let reader = self.index.reader_builder().reload_policy(tantivy::ReloadPolicy::Manual).try_into().map_err(|_| SearchError::Engine)?;
        let searcher = reader.searcher();
        let q = tantivy::query::RegexQuery::from_pattern(pattern, self.all_text_field).map_err(|_| SearchError::QueryCompile)?;
        let top = searcher.search(&q, &tantivy::collector::TopDocs::with_limit(window).order_by_score()).map_err(|_| SearchError::Engine)?;
        Ok(top.into_iter().filter_map(|(s, a)| fetch_row(&searcher, a, format!("{}", s), self)).collect())
    }
}

#[verifier::external_type_specification]
#[verifier::external_body]
pub struct ExOwnedValue(tantivy::schema::OwnedValue);

/// Relies on tantivy::schema::OwnedValue::from on serde_json values: the
/// structured per-field form of one record value (non-objects are indexed
/// under a single `_value` entry).
#[verifier::external_body]
fn content_object(v: serde_json::Value) -> std::collections::BTreeMap<
    String,
    tantivy::schema::OwnedValue,
> {
    match v {
        serde_json::Value::Object(m) => m.into_iter().map(
            |(k, x)| (k, tantivy::schema::OwnedValue::from(x)),
        ).collect(),
        other => {
            let mut m = std::collections::BTreeMap::new();
            m.insert("_value".to_string(), tantivy::schema::OwnedValue::from(other));
            m
        },
    }
}

/// Every hit of a window-limited search comes out of the index.
spec fn search_rows_ok(
    e: Engine,
    window: usize,
    r: Result<Vec<RawRow>, SearchError>,
) -> bool {
    match r {
        Ok(rows) => rows@.len() <= window && (forall|i: int|
            0 <= i < rows@.len() ==> #[trigger] engine_docs(e).count(
                (rows@[i].pointer@, rows@[i].file@, rows@[i].source@),
            ) > 0),
        Err(e) => e is QueryCompile || e is Engine,
    }
}


/// The flattened text pieces of a value: every string, number and boolean
/// leaf, in pre-order.
pub open spec fn text_parts(v: JsonV) -> Seq<Seq<char>>
    decreases v, 0int,
{
    match v {
        JsonV::Str(s) => seq![s],
        JsonV::Num(s) => seq![s],
        JsonV::Bool(b) => seq![
            if b {
                "true"@
            } else {
                "false"@
            },
        ],
        JsonV::Null => Seq::empty(),
        JsonV::Arr(items) => text_parts_list(items, 0),
        JsonV::Obj(fields) => text_parts_fields(fields, 0),
    }
}

pub open spec fn text_parts_list(items: Seq<JsonV>, k: int) -> Seq<Seq<char>>
    decreases items, items.len() - k,
{
    if k < 0 || k >= items.len() {
        Seq::empty()
    } else {
        text_parts(items[k]) + text_parts_list(items, k + 1)
    }
}

pub open spec fn text_parts_fields(fields: Seq<(Seq<char>, JsonV)>, k: int) -> Seq<Seq<char>>
    decreases fields, fields.len() - k,
{
    if k < 0 || k >= fields.len() {
        Seq::empty()
    } else {
        text_parts(fields[k].1) + text_parts_fields(fields, k + 1)
    }
}

/// The pieces from position `k` on, joined with single spaces.
pub open spec fn join_space(parts: Seq<Seq<char>>, k: int) -> Seq<char>
    decreases parts.len() - k,
{
    if k < 0 || k >= parts.len() {
        Seq::empty()
    } else if k == parts.len() - 1 {
        parts[k]
    } else {
        parts[k] + seq![' '] + join_space(parts, k + 1)
    }
}

/// The flattened all-text of a value: its leaf texts joined with spaces.
pub open spec fn all_text_of(v: JsonV) -> Seq<char> {
    join_space(text_parts(v), 0)
}

/// Collects the leaf texts of `value` in pre-order.
#[verifier::loop_isolation(false)]
fn collect_text_recursive(value: &Json, texts: &mut Vec<String>)
    ensures
        string_views(final(texts)@) == string_views(old(texts)@) + text_parts(value@),
    decreases *value,
{
    match value {
        Json::Str(s) => {
            let ghost before = string_views(texts@);
            texts.push(s.clone());
            proof {
                assert(string_views(texts@) =~= before + text_parts(value@));
            }
        },
        Json::Num(s) => {
            let ghost before = string_views(texts@);
            texts.push(s.clone());
            proof {
                assert(string_views(texts@) =~= before + text_parts(value@));
            }
        },
        Json::Bool(b) => {
            let ghost before = string_views(texts@);
            if *b {
                texts.push(String::from_str("true"));
            } else {
                texts.push(String::from_str("false"));
            }
            proof {
                assert(string_views(texts@) =~= before + text_parts(value@));
            }
        },
        Json::Null => {
            proof {
                assert(string_views(texts@) =~= string_views(texts@) + text_parts(value@));
            }
        },
        Json::Arr(items) => {
            proof {
                lemma_views_of_list(items@, 0);
            }
            let ghost ivews = views_of_list(items@, 0);
            let mut k: usize = 0;
            proof {
                assert(string_views(texts@) + text_parts_list(ivews, 0) =~= string_views(
                    old(texts)@,
                ) + text_parts(value@));
            }
            while k < items.len()
                invariant
                    k <= items.len(),
                    string_views(texts@) + text_parts_list(ivews, k as int) =~= string_views(
                        old(texts)@,
                    ) + text_parts(value@),
                decreases items.len() - k,
            {
                let ghost before = string_views(texts@);
                collect_text_recursive(&items[k], texts);
                proof {
                    assert(view_of(items@[k as int]) == ivews[k as int]);
                    assert(string_views(texts@) + text_parts_list(ivews, k + 1 as int)
                        =~= string_views(old(texts)@) + text_parts(value@)) by {
                        assert(string_views(texts@) =~= before + text_parts(ivews[k as int]));
                        assert(text_parts_list(ivews, k as int) == text_parts(ivews[k as int])
                            + text_parts_list(ivews, k + 1 as int));
                    }
                }
                k = k + 1;
            }
            proof {
                assert(text_parts_list(ivews, items@.len() as int) =~= Seq::<Seq<char>>::empty());
                assert(string_views(texts@) =~= string_views(texts@) + Seq::<Seq<char>>::empty());
            }
        },
        Json::Obj(fields) => {
            proof {
                lemma_views_of_fields(fields@, 0);
            }
            let ghost fviews = views_of_fields(fields@, 0);
            let mut k: usize = 0;
            proof {
                assert(string_views(texts@) + text_parts_fields(fviews, 0) =~= string_views(
                    old(texts)@,
                ) + text_parts(value@));
            }
            while k < fields.len()
                invariant
                    k <= fields.len(),
                    string_views(texts@) + text_parts_fields(fviews, k as int) =~= string_views(
                        old(texts)@,
                    ) + text_parts(value@),
                decreases fields.len() - k,
            {
                let ghost before = string_views(texts@);
                collect_text_recursive(&fields[k].1, texts);
                proof {
                    assert(view_of(fields@[k as int].1) == fviews[k as int].1);
                    assert(string_views(texts@) + text_parts_fields(fviews, k + 1 as int)
                        =~= string_views(old(texts)@) + text_parts(value@)) by {
                        assert(string_views(texts@) =~= before + text_parts(fviews[k as int].1));
                        assert(text_parts_fields(fviews, k as int) == text_parts(
                            fviews[k as int].1,
                        ) + text_parts_fields(fviews, k + 1 as int));
                    }
                }
                k = k + 1;
            }
            proof {
                assert(text_parts_fields(fviews, fields@.len() as int) =~= Seq::<
                    Seq<char>,
                >::empty());
                assert(string_views(texts@) =~= string_views(texts@) + Seq::<Seq<char>>::empty());
            }
        },
    }
}

/// Recursively collect every string, number and boolean leaf of a value,
/// space-joined, for the all-text index entry.
#[verifier::loop_isolation(false)]
pub fn collect_all_text(value: &Json) -> (r: String)
    ensures
        r@ == all_text_of(value@),
{
    let mut texts: Vec<String> = Vec::new();
    proof {
        assert(string_views(texts@) =~= Seq::<Seq<char>>::empty());
    }
    collect_text_recursive(value, &mut texts);
    let ghost parts = text_parts(value@);
    let mut out: Vec<char> = Vec::new();
    let mut k: usize = 0;
    while k < texts.len()
        invariant
            k <= texts.len(),
            string_views(texts@) == parts,
            (k < texts@.len() ==> join_space(parts, 0) == out@ + join_space(parts, k as int)),
            (k >= texts@.len() ==> join_space(parts, 0) == out@),
        decreases texts.len() - k,
    {
        push_str_chars(&mut out, texts[k].as_str());
        if k + 1 < texts.len() {
            out.push(' ');
        }
        proof {
            assert(parts[k as int] == texts@[k as int]@);
            if k + 1 < texts@.len() {
                assert(join_space(parts, k as int) == parts[k as int] + seq![' '] + join_space(
                    parts,
                    k + 1 as int,
                ));
            } else {
                assert(join_space(parts, k as int) == parts[k as int]);
            }
        }
        k = k + 1;
    }
    string_from_chars(&out)
}

/// The per-field clause of a text query restricted to `f`.
pub open spec fn field_clause(f: Seq<char>, q: Seq<char>) -> Seq<char> {
    "content."@ + f + ":"@ + q
}

/// The field-restricted query text from position `k` on: per-field clauses
/// joined with ` OR `.
pub open spec fn eff_query(fields: Seq<Seq<char>>, q: Seq<char>, k: int) -> Seq<char>
    decreases fields.len() - k,
{
    if k < 0 || k >= fields.len() {
        Seq::empty()
    } else if k == fields.len() - 1 {
        field_clause(fields[k], q)
    } else {
        field_clause(fields[k], q) + " OR "@ + eff_query(fields, q, k + 1)
    }
}

/// Builds the query text that restricts a text query to the given fields:
/// one `content.<field>:<query>` clause per field, joined with ` OR `.
#[verifier::loop_isolation(false)]
pub fn build_effective_query(fields: &Vec<String>, query: &str) -> (r: String)
    requires
        fields@.len() >= 1,
    ensures
        r@ == eff_query(string_views(fields@), query@, 0),
{
    let ghost fv = string_views(fields@);
    let mut out: Vec<char> = Vec::new();
    let mut k: usize = 0;
    while k < fields.len()
        invariant
            k <= fields.len(),
            (k == 0 ==> out@ =~= Seq::<char>::empty()),
            (0 < k < fields@.len() ==> eff_query(fv, query@, 0) == out@ + " OR "@ + eff_query(
                fv,
                query@,
                k as int,
            )),
            (k == fields@.len() && k > 0 ==> eff_query(fv, query@, 0) == out@),
        decreases fields.len() - k,
    {
        if k > 0 {
            push_str_chars(&mut out, " OR ");
        }
        push_str_chars(&mut out, "content.");
        push_str_chars(&mut out, fields[k].as_str());
        push_str_chars(&mut out, ":");
        push_str_chars(&mut out, query);
        proof {
            assert(fv[k as int] == fields@[k as int]@);
            if k + 1 < fields@.len() {
                assert(eff_query(fv, query@, k as int) == field_clause(fv[k as int], query@)
                    + " OR "@ + eff_query(fv, query@, k + 1 as int));
            } else {
                assert(eff_query(fv, query@, k as int) == field_clause(fv[k as int], query@));
            }
            assert(field_clause(fv[k as int], query@) == "content."@ + fv[k as int] + ":"@
                + query@);
        }
        k = k + 1;
    }
    string_from_chars(&out)
}

impl Engine {
    /// Index a batch of records: for each, its flattened all-text, compact
    /// source and address are added to the index. On success the index holds
    /// exactly the old triples plus one per record.
    pub fn index_records(&mut self, records: &Vec<Record>) -> (r: Result<(), SearchError>)
        ensures
            match r {
                Ok(_) => engine_docs(*final(self)) == engine_docs(*old(self)).add(
                    record_triples(record_views(records@)).to_multiset(),
                ),
                Err(e) => e is Engine,
            },
    {
        let mut docs: Vec<IndexDoc> = Vec::new();
        let mut i: usize = 0;
        proof {
            assert(doc_triples(docs@) =~= record_triples(record_views(records@)).take(0));
        }
        while i < records.len()
            invariant
                i <= records@.len(),
                doc_triples(docs@) =~= record_triples(record_views(records@)).take(i as int),
            decreases records.len() - i,
        {
            let ghost before = doc_triples(docs@);
            let r = &records[i];
            let source = render_compact(&r.value);
            let all_text = collect_all_text(&r.value);
            docs.push(
                IndexDoc {
                    pointer: r.pointer.clone(),
                    file: r.file.clone(),
                    source,
                    all_text,
                },
            );
            proof {
                assert(doc_triples(docs@) =~= before.push(
                    (records@[i as int].pointer@, records@[i as int].file@, compact_text_of(
                        records@[i as int].value@,
                    )),
                ));
                assert(record_triples(record_views(records@)).take(i + 1 as int)
                    =~= record_triples(record_views(records@)).take(i as int).push(
                    record_triples(record_views(records@))[i as int],
                ));
                assert(record_triples(record_views(records@))[i as int] == (
                    records@[i as int].pointer@,
                    records@[i as int].file@,
                    compact_text_of(records@[i as int].value@),
                ));
            }
            i = i + 1;
        }
        proof {
            assert(record_triples(record_views(records@)).take(records@.len() as int)
                =~= record_triples(record_views(records@)));
        }
        self.index_batch(&docs)
    }

    /// Run one query against the index: the match mode picks the engine
    /// query, up to `limit + offset` ranked hits are fetched and the first
    /// `offset` skipped. Every returned result comes out of the index; the
    /// ranking is the engine's own.
    #[verifier::loop_isolation(false)]
    pub fn search(
        &self,
        query_str: &str,
        fields: &Vec<String>,
        match_mode: &MatchMode,
        limit: usize,
        offset: usize,
    ) -> (r: Result<Vec<SearchResult>, SearchError>)
        requires
            1 <= limit + offset <= usize::MAX,
        ensures
            match r {
                Ok(out) => out@.len() <= limit && (forall|i: int|
                    0 <= i < out@.len() ==> from_index(engine_docs(*self), #[trigger] out@[i]@)),
                Err(e) => e is QueryCompile || e is Engine,
            },
    {
        let window = limit + offset;
        let raw = match match_mode {
            MatchMode::Text | MatchMode::Exact => {
                if fields.len() == 0 {
                    self.search_text(query_str, true, window)
                } else {
                    let eff = build_effective_query(fields, query_str);
                    self.search_text(eff.as_str(), false, window)
                }
            },
            MatchMode::Fuzzy => {
                let low = lowercase(query_str);
                self.search_fuzzy(low.as_str(), window)
            },
            MatchMode::Regex => self.search_regex(query_str, window),
        };
        let rows = match raw {
            Ok(rows) => rows,
            Err(e) => {
                return Err(e);
            },
        };
        let mut out: Vec<SearchResult> = Vec::new();
        let mut i: usize = offset;
        while i < rows.len()
            invariant
                offset <= i,
                i <= rows@.len() || i == offset,
                out@.len() == i - offset || (out@.len() == 0 && i == offset),
                rows@.len() <= window,
                forall|j: int| 0 <= j < out@.len() ==> from_index(engine_docs(*self), #[trigger] out@[j]@),
            decreases rows.len() - i,
        {
            let row = &rows[i];
            let value = parse_json(row.source.as_str());
            let res = SearchResult {
                record: Record {
                    pointer: row.pointer.clone(),
                    file: row.file.clone(),
                    value,
                },
                score: row.score.clone(),
            };
            proof {
                let rv = res@;
                assert(engine_docs(*self).count(
                    (rows@[i as int].pointer@, rows@[i as int].file@, rows@[i as int].source@),
                ) > 0);
                assert(from_index(engine_docs(*self), rv)) by {
                    assert(engine_docs(*self).count(
                        (rv.record.pointer, rv.record.file, rows@[i as int].source@),
                    ) > 0 && rv.record.value == parsed_json(rows@[i as int].source@));
                }
            }
            out.push(res);
            i = i + 1;
        }
        Ok(out)
    }
}

} // verus!
