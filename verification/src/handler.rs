//! The four request handlers: each translates a parsed HTTP request into
//! store calls and the store's result into a status code and JSON body,
//! with every failure mapped through the error taxonomy.
use vstd::prelude::*;
use crate::book::{
    BookInput, BookModel, models_of, spec_parse_book_input, parse_book_input, spec_book_json,
    book_to_json, spec_books_json, books_to_json, lemma_books_json_empty,
};
use crate::error::{Error, spec_error_body, error_body, status_of};
use crate::num::spec_nat_str;
use crate::store::{BookStore, spec_updated};

verus! {

/// An HTTP response: a status code and a JSON body.
pub struct Reply {
    pub status: u16,
    pub body: String,
}

/// The confirmation body of a successful update or delete.
pub open spec fn spec_ok_body() -> Seq<char> {
    "{\"ok\":true}"@
}

pub fn ok_body() -> (r: String)
    ensures
        r@ == spec_ok_body(),
{
    "{\"ok\":true}".to_owned()
}

/// Creates a book from a JSON payload: on a well-formed body the store
/// assigns a fresh identifier and the current time, and the response carries
/// the stored book; a malformed body maps to 400, a full identifier counter
/// to 500.
pub fn create_book_handler(store: &mut BookStore, body: &str) -> (r: Reply)
    requires
        old(store).inv(),
    ensures
        final(store).inv(),
        match spec_parse_book_input(body@) {
            None => {
                &&& *final(store) == *old(store)
                &&& r.status == 400
                &&& r.body@ == spec_error_body(Error::Parse)
            },
            Some(inp) => if old(store).next_id < u64::MAX {
                let b = final(store).models().last();
                {
                    &&& r.status == 200
                    &&& final(store).next_id == old(store).next_id + 1
                    &&& final(store).models() == old(store).models().push(b)
                    &&& b.id == spec_nat_str(old(store).next_id as nat)
                    &&& b.id.len() > 0
                    &&& forall|i: int|
                        0 <= i < old(store).models().len() ==> (#[trigger] old(
                            store,
                        ).models()[i]).id != b.id
                    &&& b.name == inp.name
                    &&& b.author == inp.author
                    &&& b.num_pages == inp.num_pages
                    &&& b.tags == inp.tags
                    &&& r.body@ == spec_book_json(b)
                }
            } else {
                &&& r.status == 500
                &&& r.body@ == spec_error_body(Error::Storage)
                &&& *final(store) == *old(store)
            },
        },
{
    let input = match parse_book_input(body) {
        None => {
            return Reply { status: 400, body: error_body(&Error::Parse) };
        },
        Some(i) => i,
    };
    let t = crate::clock::now_unix_seconds();
    let BookInput { name, author, num_pages, tags } = input;
    match store.insert(name, author, num_pages, t, tags) {
        Ok(b) => Reply { status: 200, body: book_to_json(&b) },
        Err(e) => Reply { status: status_of(&e), body: error_body(&e) },
    }
}

/// Replaces the stored fields of the book at `id` with a JSON payload's
/// fields, keeping `id` and `added_at`. A malformed body maps to 400; an
/// unknown identifier to 404, with the store untouched.
pub fn edit_book_handler(store: &mut BookStore, id: &str, body: &str) -> (r: Reply)
    requires
        old(store).inv(),
    ensures
        final(store).inv(),
        match spec_parse_book_input(body@) {
            None => {
                &&& *final(store) == *old(store)
                &&& r.status == 400
                &&& r.body@ == spec_error_body(Error::Parse)
            },
            Some(inp) => if exists|i: int|
                0 <= i < old(store).models().len() && (#[trigger] old(store).models()[i]).id
                    == id@ {
                &&& r.status == 200
                &&& r.body@ == spec_ok_body()
                &&& final(store).models().len() == old(store).models().len()
                &&& final(store).next_id == old(store).next_id
                &&& forall|i: int|
                    0 <= i < old(store).models().len() ==> #[trigger] final(store).models()[i] == (
                    if old(store).models()[i].id == id@ {
                        spec_updated(old(store).models()[i], inp)
                    } else {
                        old(store).models()[i]
                    })
            } else {
                &&& r.status == 404
                &&& r.body@ == spec_error_body(Error::NotFound)
                &&& *final(store) == *old(store)
            },
        },
{
    let input = match parse_book_input(body) {
        None => {
            return Reply { status: 400, body: error_body(&Error::Parse) };
        },
        Some(i) => i,
    };
    match store.update(id, input) {
        Ok(_) => Reply { status: 200, body: ok_body() },
        Err(e) => Reply { status: status_of(&e), body: error_body(&e) },
    }
}

/// Removes the book at `id`; afterwards no stored book carries that
/// identifier. An unknown identifier maps to 404, with the store untouched.
pub fn delete_book_handler(store: &mut BookStore, id: &str) -> (r: Reply)
    requires
        old(store).inv(),
    ensures
        final(store).inv(),
        if exists|i: int|
            0 <= i < old(store).models().len() && (#[trigger] old(store).models()[i]).id == id@ {
            &&& r.status == 200
            &&& r.body@ == spec_ok_body()
            &&& exists|i: int|
                0 <= i < old(store).models().len() && (#[trigger] old(store).models()[i]).id == id@
                    && final(store).models() == old(store).models().remove(i)
            &&& forall|j: int|
                0 <= j < final(store).models().len() ==> (#[trigger] final(store).models()[j]).id != id@
        } else {
            &&& r.status == 404
            &&& r.body@ == spec_error_body(Error::NotFound)
            &&& *final(store) == *old(store)
        },
{
    match store.delete(id) {
        Ok(_) => Reply { status: 200, body: ok_body() },
        Err(e) => Reply { status: status_of(&e), body: error_body(&e) },
    }
}

/// Returns the whole collection as a JSON array; with nothing stored the
/// body is the empty array `[]`, never empty or missing.
pub fn books_list_handler(store: &BookStore) -> (r: Reply)
    requires
        store.inv(),
    ensures
        r.status == 200,
        r.body@ == spec_books_json(store.models()),
        store.models().len() == 0 ==> r.body@ == "[]"@,
{
    let books = store.list();
    let body = books_to_json(&books);
    proof {
        if store.models().len() == 0 {
            lemma_books_json_empty();
            assert(models_of(books@) =~= Seq::<BookModel>::empty());
        }
    }
    Reply { status: 200, body }
}

/// The fallback response for a request no route matched.
pub fn not_found_reply() -> (r: Reply)
    ensures
        r.status == 404,
        r.body@ == spec_error_body(Error::NotMatched),
{
    Reply { status: status_of(&Error::NotMatched), body: error_body(&Error::NotMatched) }
}

} // verus!
