//! The legal vector database as the library sees it: its errors, its table,
//! and the rows a search returns.  Querying the database is the caller's part.

use vstd::prelude::*;

use crate::rag::LegalContext;
use crate::text::{chars_eq, chars_of, extend_str, string_of, string_views};

verus! {

/// The table of law articles.
pub const LEXUZ_TABLE: &'static str = "lexuz_articles";

/// Errors of the vector database.
pub enum VectorStoreError {
    NotReady(String),
    Search(String),
}

/// The user-facing text of a vector-database error.
pub open spec fn spec_vector_store_error_message(e: VectorStoreError) -> Seq<char> {
    match e {
        VectorStoreError::NotReady(s) => "Vector store not available: "@ + s@,
        VectorStoreError::Search(s) => "Search failed: "@ + s@,
    }
}

impl VectorStoreError {
    /// The text of the error, as shown to the user.
    pub fn message(&self) -> (r: String)
        ensures
            r@ == spec_vector_store_error_message(*self),
    {
        let mut v: Vec<char> = Vec::new();
        match self {
            VectorStoreError::NotReady(s) => {
                extend_str(&mut v, "Vector store not available: ");
                extend_str(&mut v, s);
            },
            VectorStoreError::Search(s) => {
                extend_str(&mut v, "Search failed: ");
                extend_str(&mut v, s);
            },
        }
        string_of(&v)
    }
}

/// The database at `display` does not exist.
pub fn missing_db_error(display: &str) -> (r: VectorStoreError)
    ensures
        r matches VectorStoreError::NotReady(m) && m@ == "Missing lexuz DB at "@ + display@,
{
    let mut v: Vec<char> = Vec::new();
    extend_str(&mut v, "Missing lexuz DB at ");
    extend_str(&mut v, display);
    VectorStoreError::NotReady(string_of(&v))
}

/// Checks that the database has the articles table among `names`.
pub fn require_lexuz_table(names: &Vec<String>) -> (r: Result<(), VectorStoreError>)
    ensures
        string_views(names@).contains(LEXUZ_TABLE@) ==> r is Ok,
        !string_views(names@).contains(LEXUZ_TABLE@) ==> (r matches Err(VectorStoreError::NotReady(m))
            && m@ == "table lexuz_articles not found in lexuz.db"@),
{
    let t = chars_of(LEXUZ_TABLE);
    let mut i: usize = 0;
    while i < names.len()
        invariant
            i <= names@.len(),
            t@ == LEXUZ_TABLE@,
            forall|k: int| 0 <= k < i ==> string_views(names@)[k] != LEXUZ_TABLE@,
        decreases names@.len() - i,
    {
        if chars_eq(&chars_of(&names[i]), &t) {
            assert(string_views(names@)[i as int] == LEXUZ_TABLE@);
            return Ok(());
        }
        i = i + 1;
    }
    Err(VectorStoreError::NotReady(string_of(&chars_of("table lexuz_articles not found in lexuz.db"))))
}

/// A search asks for at least one article.
pub fn effective_top_k(top_k: usize) -> (r: usize)
    ensures
        r == if top_k < 1 {
            1
        } else {
            top_k
        },
{
    if top_k < 1 {
        1
    } else {
        top_k
    }
}

/// A text column with its nulls read as empty strings.
pub open spec fn spec_column(values: Seq<Option<String>>) -> Seq<Seq<char>> {
    Seq::new(
        values.len(),
        |i: int|
            match values[i] {
                Some(s) => s@,
                None => Seq::<char>::empty(),
            },
    )
}

/// Reads a text column, a null as an empty string.
pub fn column_strings(values: &Vec<Option<String>>) -> (r: Vec<String>)
    ensures
        string_views(r@) == spec_column(values@),
{
    let mut out: Vec<String> = Vec::new();
    let mut i: usize = 0;
    while i < values.len()
        invariant
            i <= values@.len(),
            string_views(out@) == spec_column(values@).take(i as int),
        decreases values@.len() - i,
    {
        let s = match &values[i] {
            Some(s) => string_of(&chars_of(s)),
            None => string_of(&Vec::new()),
        };
        assert(s@ == spec_column(values@)[i as int]);
        let ghost b4 = string_views(out@);
        out.push(s);
        assert(string_views(out@) =~= b4.push(s@));
        assert(string_views(out@) =~= spec_column(values@).take(i + 1));
        i = i + 1;
    }
    assert(spec_column(values@).take(values@.len() as int) =~= spec_column(values@));
    out
}

/// Row `i` of a column, empty past its end.
pub open spec fn spec_cell(col: Seq<String>, i: int) -> Seq<char> {
    if 0 <= i < col.len() {
        col[i]@
    } else {
        Seq::<char>::empty()
    }
}

fn cell(col: &Vec<String>, i: usize) -> (r: String)
    ensures
        r@ == spec_cell(col@, i as int),
{
    if i < col.len() {
        string_of(&chars_of(&col[i]))
    } else {
        string_of(&Vec::new())
    }
}

/// Row `i` of a search result as an article for the prompt.
pub fn context_row(
    ids: &Vec<String>,
    texts: &Vec<String>,
    laws: &Vec<String>,
    articles: &Vec<String>,
    chapters: &Vec<String>,
    sections: &Vec<String>,
    i: usize,
) -> (r: LegalContext)
    ensures
        r.id@ == spec_cell(ids@, i as int),
        r.text@ == spec_cell(texts@, i as int),
        r.law_name@ == spec_cell(laws@, i as int),
        r.article_number@ == spec_cell(articles@, i as int),
        r.chapter@ == spec_cell(chapters@, i as int),
        r.section_title@ == spec_cell(sections@, i as int),
{
    LegalContext {
        id: cell(ids, i),
        text: cell(texts, i),
        law_name: cell(laws, i),
        article_number: cell(articles, i),
        chapter: cell(chapters, i),
        section_title: cell(sections, i),
    }
}

} // verus!
