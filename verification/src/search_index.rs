//! The full text index, which the crate `tantivy` keeps.
//!
//! A document is a list of texts, each with the number of its field. An index
//! holds documents, and all its fields are fields of text. What is in the values of
//! `tantivy` is named here by functions without a body, and what its functions do
//! to them is stated over these names. So is when one of its functions may fail on
//! some machine.
//!
//! An index is handed to its writer and comes back from the commit, so that no
//! one reads it while it is written.

use tantivy::collector::TopDocs;
use tantivy::query::QueryParser;
use tantivy::schema::{Field, Schema, SchemaBuilder, Value, STORED, TEXT};
use tantivy::{DocAddress, Index, IndexReader, Searcher, TantivyDocument, TantivyError};
use vstd::multiset::Multiset;
use vstd::prelude::*;

use crate::query::is_readable;
use crate::score::at_least;

verus! {

/// The fields that a schema is built from.
#[verifier::external_type_specification]
#[verifier::external_body]
pub struct ExSchemaBuilder(tantivy::schema::SchemaBuilder);

/// The fields of an index.
#[verifier::external_type_specification]
#[verifier::external_body]
pub struct ExSchema(tantivy::schema::Schema);

/// An index.
#[verifier::external_type_specification]
#[verifier::external_body]
pub struct ExIndex(tantivy::Index);

/// A document.
#[verifier::external_type_specification]
#[verifier::external_body]
pub struct ExTantivyDocument(tantivy::TantivyDocument);

/// A way to the documents of an index.
#[verifier::external_type_specification]
#[verifier::external_body]
pub struct ExIndexReader(tantivy::IndexReader);

/// The documents of an index at one moment.
#[verifier::external_type_specification]
#[verifier::external_body]
pub struct ExSearcher(tantivy::Searcher);

/// A reader of queries.
#[verifier::external_type_specification]
#[verifier::external_body]
pub struct ExQueryParser(tantivy::query::QueryParser);

/// An error of the index.
#[verifier::external_type_specification]
#[verifier::external_body]
pub struct ExTantivyError(tantivy::TantivyError);

/// An index that documents are added to.
#[verifier::external_body]
pub struct IndexWriter {
    inner: tantivy::IndexWriter,
}

/// A document: its texts, each with the number of its field.
pub type Document = Seq<(u32, Seq<char>)>;

/// The fields of a builder, in the order they were added: the name of each, and
/// whether its texts can be read back.
pub uninterp spec fn builder_fields(builder: SchemaBuilder) -> Seq<(Seq<char>, bool)>;

/// The fields of a schema.
pub uninterp spec fn schema_fields(schema: Schema) -> Seq<(Seq<char>, bool)>;

/// The texts of a document, in the order they were added.
pub uninterp spec fn document_texts(document: TantivyDocument) -> Seq<(u32, Seq<char>)>;

/// The fields of an index.
pub uninterp spec fn index_fields(index: Index) -> Seq<(Seq<char>, bool)>;

/// The documents of an index.
pub uninterp spec fn index_documents(index: Index) -> Multiset<Seq<(u32, Seq<char>)>>;

/// The fields of an index that is being written.
pub uninterp spec fn writer_fields(writer: IndexWriter) -> Seq<(Seq<char>, bool)>;

/// The documents that an index will hold once it is committed.
pub uninterp spec fn writer_documents(writer: IndexWriter) -> Multiset<Seq<(u32, Seq<char>)>>;

/// The fields of the index that a reader reads.
pub uninterp spec fn reader_fields(reader: IndexReader) -> Seq<(Seq<char>, bool)>;

/// The documents of the index that a reader reads.
pub uninterp spec fn reader_documents(reader: IndexReader) -> Multiset<Seq<(u32, Seq<char>)>>;

/// The fields of the index that a searcher searches.
pub uninterp spec fn searcher_fields(searcher: Searcher) -> Seq<(Seq<char>, bool)>;

/// The documents that a searcher searches, each at its address: the number of a
/// segment and a number in it.
pub uninterp spec fn searcher_documents(searcher: Searcher) -> Map<
    (u32, u32),
    Seq<(u32, Seq<char>)>,
>;

/// The fields that queries may speak of.
pub uninterp spec fn parser_fields(parser: QueryParser) -> Seq<(Seq<char>, bool)>;

/// The fields that a query speaks of where it names none.
pub uninterp spec fn parser_defaults(parser: QueryParser) -> Seq<u32>;

/// Whether a text is a query, for a parser with the given fields and default
/// fields.
pub uninterp spec fn query_accepted(
    fields: Seq<(Seq<char>, bool)>,
    defaults: Seq<u32>,
    query: Seq<char>,
) -> bool;

/// Whether the given hits, each with its score and its address, are a possible
/// answer to a query: one that a search of these documents for at most so many
/// hits gives on some machine.
pub uninterp spec fn may_answer(
    fields: Seq<(Seq<char>, bool)>,
    defaults: Seq<u32>,
    query: Seq<char>,
    documents: Map<(u32, u32), Seq<(u32, Seq<char>)>>,
    limit: nat,
    hits: Seq<(u32, (u32, u32))>,
) -> bool;

/// Whether an index may not be opened for writing with so many bytes as its
/// working memory: on some machine it is not.
pub uninterp spec fn may_refuse_writer(memory_budget: nat) -> bool;

/// Whether a document may not be taken by an index that is being written: on some
/// machine it is not.
pub uninterp spec fn may_refuse_document(document: Seq<(u32, Seq<char>)>) -> bool;

/// Whether the given documents may not get into an index: on some machine they do
/// not.
pub uninterp spec fn may_refuse_commit(documents: Multiset<Seq<(u32, Seq<char>)>>) -> bool;

/// Whether an index of the given documents may not be opened for reading: on some
/// machine it is not.
pub uninterp spec fn may_refuse_reader(documents: Multiset<Seq<(u32, Seq<char>)>>) -> bool;

/// Whether a query may get no answer: on some machine, a search of these documents
/// for at most so many hits fails.
pub uninterp spec fn may_not_answer(
    fields: Seq<(Seq<char>, bool)>,
    defaults: Seq<u32>,
    query: Seq<char>,
    documents: Map<(u32, u32), Seq<(u32, Seq<char>)>>,
    limit: nat,
) -> bool;

/// Whether a document may not be read from an index: on some machine it is not.
pub uninterp spec fn may_not_read(document: Seq<(u32, Seq<char>)>) -> bool;

/// The addresses at which a document stands.
pub open spec fn addresses_of(places: Map<(u32, u32), Document>, document: Document) -> Set<
    (u32, u32),
> {
    places.dom().filter(|address: (u32, u32)| places[address] == document)
}

/// The documents stand at the given places, each at as many addresses as it is
/// there times.
pub open spec fn stand_at(
    documents: Multiset<Document>,
    places: Map<(u32, u32), Document>,
) -> bool {
    &&& places.dom().finite()
    &&& forall|document: Document|
        documents.count(document) == (#[trigger] addresses_of(places, document)).len()
}

/// A name that a field can have: not empty, and not with a hyphen in front.
pub open spec fn is_field_name(name: Seq<char>) -> bool {
    name.len() > 0 && name[0] != '-'
}

/// The number of characters in a document.
pub open spec fn document_size(texts: Document) -> nat
    decreases texts.len(),
{
    if texts.len() == 0 {
        0
    } else {
        document_size(texts.drop_last()) + texts.last().1.len()
    }
}

/// A document is small enough that the index surely gives back what was put in:
/// it counts the bytes of a document in 32 bits.
pub open spec fn is_small(texts: Document) -> bool {
    document_size(texts) <= 0x100_0000
}

/// The texts of a document that can be read back.
pub open spec fn stored_texts(fields: Seq<(Seq<char>, bool)>, texts: Document) -> Document {
    texts.filter(|text: (u32, Seq<char>)| text.0 < fields.len() && fields[text.0 as int].1)
}

/// The first text of a document that is in the given field.
pub open spec fn first_text(texts: Document, field: u32) -> Option<Seq<char>>
    decreases texts.len(),
{
    if texts.len() == 0 {
        None
    } else if texts.first().0 == field {
        Some(texts.first().1)
    } else {
        first_text(texts.drop_first(), field)
    }
}

/// The largest number of hits that can be asked for: room is made for twice as
/// many, of 12 bytes each.
pub open spec fn most_hits() -> nat {
    (usize::MAX / 48) as nat
}

/// A schema without fields.
///
/// Calls `Schema::builder`, which starts with no field.
#[verifier::external_body]
pub(crate) fn schema_builder() -> (builder: SchemaBuilder)
    ensures
        builder_fields(builder) == Seq::<(Seq<char>, bool)>::empty(),
{
    Schema::builder()
}

/// Adds a field of texts that are split into words and searched, and that can be
/// read back.
///
/// Calls `SchemaBuilder::add_text_field` with the options `TEXT | STORED`. It adds
/// the field behind the others, and panics where there is one of that name, and
/// where the name is empty or starts with a hyphen. The number of the field that
/// it returns, its place, is not used.
#[verifier::external_body]
pub(crate) fn add_stored_text_field(builder: &mut SchemaBuilder, name: &str)
    requires
        is_field_name(name@),
        forall|i: int|
            0 <= i < builder_fields(*old(builder)).len() ==> builder_fields(*old(builder))[i].0
                != name@,
    ensures
        builder_fields(*final(builder)) == builder_fields(*old(builder)).push((name@, true)),
{
    builder.add_text_field(name, TEXT | STORED);
}

/// Adds a field of texts that are split into words and searched, and that cannot
/// be read back.
///
/// Calls `SchemaBuilder::add_text_field` with the options `TEXT`. It adds the
/// field behind the others, and panics where there is one of that name, and where
/// the name is empty or starts with a hyphen.
#[verifier::external_body]
pub(crate) fn add_text_field(builder: &mut SchemaBuilder, name: &str)
    requires
        is_field_name(name@),
        forall|i: int|
            0 <= i < builder_fields(*old(builder)).len() ==> builder_fields(*old(builder))[i].0
                != name@,
    ensures
        builder_fields(*final(builder)) == builder_fields(*old(builder)).push((name@, false)),
{
    builder.add_text_field(name, TEXT);
}

/// The schema with the fields of the builder.
///
/// Calls `SchemaBuilder::build`, which keeps the fields as they are.
#[verifier::external_body]
pub(crate) fn build_schema(builder: SchemaBuilder) -> (schema: Schema)
    ensures
        schema_fields(schema) == builder_fields(builder),
{
    builder.build()
}

/// The number of the field with the given name.
///
/// Calls `Schema::get_field`, which gives the place of the field of that name, or
/// an error where there is none.
#[verifier::external_body]
pub(crate) fn get_field(schema: &Schema, name: &str) -> (found: Option<u32>)
    ensures
        match found {
            Some(field) => field < schema_fields(*schema).len()
                && schema_fields(*schema)[field as int].0 == name@,
            None => forall|i: int|
                0 <= i < schema_fields(*schema).len() ==> schema_fields(*schema)[i].0 != name@,
        },
{
    schema.get_field(name).ok().map(|field| field.field_id())
}

/// An index in memory, without documents.
///
/// Calls `Index::create_in_ram` on a copy of the schema.
#[verifier::external_body]
pub(crate) fn create_in_ram(schema: &Schema) -> (index: Index)
    ensures
        index_fields(index) == schema_fields(*schema),
        index_documents(index) == Multiset::<Document>::empty(),
{
    Index::create_in_ram(schema.clone())
}

/// Opens an index for writing, with the given number of bytes as its working
/// memory.
///
/// Calls `Index::writer`. Whether it succeeds depends on the memory that is asked
/// for and on whether the machine starts the threads that it needs: where it does
/// not, such a writer is one that may be refused. The writer starts from the
/// documents of the index.
#[verifier::external_body]
pub(crate) fn writer(index: Index, memory_budget: usize) -> (res: Result<IndexWriter, TantivyError>)
    ensures
        res matches Ok(writer) ==> writer_fields(writer) == index_fields(index)
            && writer_documents(writer) == index_documents(index),
        res is Err ==> may_refuse_writer(memory_budget as nat),
{
    Ok(IndexWriter { inner: index.writer(memory_budget)? })
}

/// A document without texts.
///
/// Calls `TantivyDocument::new`.
#[verifier::external_body]
pub(crate) fn new_document() -> (document: TantivyDocument)
    ensures
        document_texts(document) == Seq::<(u32, Seq<char>)>::empty(),
{
    TantivyDocument::new()
}

/// Adds a text to a document.
///
/// Calls `TantivyDocument::add_text`, which adds the text behind the others. It
/// panics where the number of the field does not fit in 16 bits, and it cuts
/// sizes to 32 bits, so that nothing is said of large documents.
#[verifier::external_body]
pub(crate) fn add_text(document: &mut TantivyDocument, field: u32, text: &str)
    requires
        field <= u16::MAX,
    ensures
        is_small(document_texts(*old(document)).push((field, text@))) ==> document_texts(
            *final(document),
        ) == document_texts(*old(document)).push((field, text@)),
{
    document.add_text(Field::from_field_id(field), text);
}

/// Adds a document to an index that is being written, and says whether it was
/// taken.
///
/// Calls `IndexWriter::add_document`. It fails where a thread of the writer has
/// ended, and then adds nothing: such a document is one that may be refused.
#[verifier::external_body]
pub(crate) fn add_document(writer: &mut IndexWriter, document: TantivyDocument) -> (taken: bool)
    ensures
        writer_fields(*final(writer)) == writer_fields(*old(writer)),
        writer_documents(*final(writer)) == if taken {
            writer_documents(*old(writer)).insert(document_texts(document))
        } else {
            writer_documents(*old(writer))
        },
        !taken ==> may_refuse_document(document_texts(document)),
{
    writer.inner.add_document(document).is_ok()
}

/// Makes the documents that were added a part of the index.
///
/// Calls `IndexWriter::commit`, and `IndexWriter::index` for the index itself. It
/// fails where a thread of the writer has failed: such documents are ones that may
/// be refused. Where it succeeds, the index holds all documents that were added.
#[verifier::external_body]
pub(crate) fn commit(writer: IndexWriter) -> (res: Result<Index, TantivyError>)
    ensures
        res matches Ok(index) ==> index_fields(index) == writer_fields(writer) && index_documents(
            index,
        ) == writer_documents(writer),
        res is Err ==> may_refuse_commit(writer_documents(writer)),
{
    let mut writer = writer;
    writer.inner.commit()?;
    Ok(writer.inner.index().clone())
}

/// A reader of an index.
///
/// Calls `Index::reader`, which opens what was committed last. It can fail, on
/// what the machine gives it: such an index is one whose reader may be refused.
#[verifier::external_body]
pub(crate) fn reader(index: &Index) -> (res: Result<IndexReader, TantivyError>)
    ensures
        res matches Ok(reader) ==> reader_fields(reader) == index_fields(*index)
            && reader_documents(reader) == index_documents(*index),
        res is Err ==> may_refuse_reader(index_documents(*index)),
{
    index.reader()
}

/// The documents that a reader sees.
///
/// Calls `IndexReader::searcher`. Each document of the index stands at an address
/// of its own, at several where it was added several times, and each address has
/// a document of the index.
#[verifier::external_body]
pub(crate) fn searcher(reader: &IndexReader) -> (searcher: Searcher)
    ensures
        searcher_fields(searcher) == reader_fields(*reader),
        stand_at(reader_documents(*reader), searcher_documents(searcher)),
{
    reader.searcher()
}

/// A parser of queries for an index, with the fields that a query speaks of where
/// it names none.
///
/// Calls `QueryParser::for_index`.
#[verifier::external_body]
pub(crate) fn query_parser(index: &Index, defaults: Vec<u32>) -> (parser: QueryParser)
    requires
        forall|i: int| 0 <= i < defaults@.len() ==> defaults@[i] < index_fields(*index).len(),
    ensures
        parser_fields(parser) == index_fields(*index),
        parser_defaults(parser) == defaults@,
{
    QueryParser::for_index(index, defaults.into_iter().map(Field::from_field_id).collect())
}

/// Whether a text is a query.
///
/// Calls `QueryParser::parse_query` and tells whether it accepts the text, which
/// depends on the parser's fields and on the text alone. On other texts than the
/// readable ones it may panic, overflow the stack or not return for a long time.
#[verifier::external_body]
pub(crate) fn accepts(parser: &QueryParser, query: &str) -> (accepted: bool)
    requires
        is_readable(query@),
    ensures
        accepted == query_accepted(parser_fields(*parser), parser_defaults(*parser), query@),
{
    parser.parse_query(query).is_ok()
}

/// The hits of a query: at most so many, the best first, each with its score and
/// its address.
///
/// Calls `Searcher::search` with `TopDocs::with_limit`, on the query that
/// `QueryParser::parse_query` reads from the text, which is readable for the reason
/// that `accepts` gives. It can fail, also on a query that the parser accepts: such
/// a query is one that may get no answer. `TopDocs::with_limit` panics where the
/// limit is zero. Only scores above the least finite number are collected, so that
/// none of them is no number. Which documents are hits, and with what scores, is not
/// written out: the hits are a possible answer.
#[verifier::external_body]
pub(crate) fn search(
    searcher: &Searcher,
    parser: &QueryParser,
    query: &str,
    limit: usize,
) -> (res: Option<Vec<(u32, (u32, u32))>>)
    requires
        1 <= limit <= most_hits(),
        parser_fields(*parser) == searcher_fields(*searcher),
        is_readable(query@),
        query_accepted(parser_fields(*parser), parser_defaults(*parser), query@),
    ensures
        res matches Some(hits) ==> {
            &&& hits@.len() <= limit
            &&& forall|i: int|
                0 <= i < hits@.len() ==> searcher_documents(*searcher).contains_key(
                    #[trigger] hits@[i].1,
                )
            &&& forall|i: int, j: int|
                0 <= i < j < hits@.len() ==> (#[trigger] hits@[i]).1 != (#[trigger] hits@[j]).1
                    && at_least(hits@[i].0, hits@[j].0)
            &&& may_answer(
                parser_fields(*parser),
                parser_defaults(*parser),
                query@,
                searcher_documents(*searcher),
                limit as nat,
                hits@,
            )
        },
        res is None ==> may_not_answer(
            parser_fields(*parser),
            parser_defaults(*parser),
            query@,
            searcher_documents(*searcher),
            limit as nat,
        ),
{
    let parsed = parser.parse_query(query).ok()?;
    let hits = searcher.search(&parsed, &TopDocs::with_limit(limit)).ok()?;
    let plain = |(score, at): (tantivy::Score, DocAddress)| {
        (score.to_bits(), (at.segment_ord, at.doc_id))
    };
    Some(hits.into_iter().map(plain).collect())
}

/// The document at an address, as far as it can be read back.
///
/// Calls `Searcher::doc`. It panics where there is no such segment, and it can
/// fail, on what the machine gives it: such a document is one that may not be read.
#[verifier::external_body]
pub(crate) fn document_at(searcher: &Searcher, address: (u32, u32)) -> (res: Result<
    TantivyDocument,
    TantivyError,
>)
    requires
        searcher_documents(*searcher).contains_key(address),
    ensures
        res matches Ok(document) ==> (is_small(searcher_documents(*searcher)[address])
            ==> document_texts(document) == stored_texts(
            searcher_fields(*searcher),
            searcher_documents(*searcher)[address],
        )),
        res is Err ==> may_not_read(searcher_documents(*searcher)[address]),
{
    searcher.doc::<TantivyDocument>(DocAddress::new(address.0, address.1))
}

/// The first text of a document that is in the given field.
///
/// Calls `TantivyDocument::get_first`, and `Value::as_str` on what it gives. A
/// document comes from `new_document` or `document_at`, and its values from
/// `add_text` alone, so that all of them are texts.
#[verifier::external_body]
pub(crate) fn first_text_of(document: &TantivyDocument, field: u32) -> (res: Option<String>)
    ensures
        match (res, first_text(document_texts(*document), field)) {
            (Some(text), Some(expected)) => text@ == expected,
            (None, None) => true,
            _ => false,
        },
{
    let value = document.get_first(Field::from_field_id(field))?;
    value.as_str().map(str::to_string)
}

} // verus!
