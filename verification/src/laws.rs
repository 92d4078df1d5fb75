//! Properties of the service stated across several operations.
use vstd::prelude::*;
use crate::book::{
    BookModel, spec_book_json, spec_books_json, spec_books_tail, lemma_books_tail_snoc,
};
use crate::error::{Error, spec_error_body};
use crate::json::{lemma_escape_plain, spec_quote};
use crate::num::{
    spec_nat_str, digit_char, lemma_nat_str_nonempty, lemma_nat_str_injective,
};

verus! {

proof fn lemma_not_found_message_plain()
    ensures
        crate::json::spec_escape("not found"@) == "not found"@,
{
    reveal_strlit("not found");
    lemma_escape_plain("not found"@);
}

proof fn lemma_404_digits()
    ensures
        spec_nat_str(404) == seq!['4', '0', '4'],
{
    assert(spec_nat_str(4) =~= seq![digit_char(4)]);
    assert(spec_nat_str(40) =~= spec_nat_str(4) + seq![digit_char(0)]);
    assert(spec_nat_str(404) =~= spec_nat_str(40) + seq![digit_char(4)]);
    assert(spec_nat_str(404) =~= seq!['4', '0', '4']);
}

/// The body sent for an update or delete of an unknown id spells out status
/// 404, character for character.
#[verifier::rlimit(100)]
pub proof fn lemma_not_found_body_status_field()
    ensures
        spec_error_body(Error::NotFound) == "{\"status\":404,\"message\":\"not found\"}"@,
{
    lemma_404_digits();
    lemma_eb_status();
    lemma_eb_message();
    lemma_eb_quoted();
    lemma_eb_body();
    lemma_eb_close();
    assert(spec_error_body(Error::NotFound) == "{\"status\":"@ + spec_nat_str(404)
        + ",\"message\":"@ + spec_quote("not found"@) + "}"@);
    assert(spec_error_body(Error::NotFound) =~= "{\"status\":404,\"message\":\"not found\"}"@);
}

proof fn lemma_eb_status()
    ensures
        "{\"status\":"@ + seq!['4', '0', '4'] == "{\"status\":404"@,
{
    reveal_strlit("{\"status\":");
    reveal_strlit("{\"status\":404");
    assert(("{\"status\":"@ + seq!['4', '0', '4']) =~= "{\"status\":404"@);
}

proof fn lemma_eb_message()
    ensures
        "{\"status\":404"@ + ",\"message\":"@ == "{\"status\":404,\"message\":"@,
{
    reveal_strlit("{\"status\":404");
    reveal_strlit(",\"message\":");
    reveal_strlit("{\"status\":404,\"message\":");
    assert(("{\"status\":404"@ + ",\"message\":"@) =~= "{\"status\":404,\"message\":"@);
}

proof fn lemma_eb_quoted()
    ensures
        spec_quote("not found"@) == "\"not found\""@,
{
    reveal_strlit("not found");
    reveal_strlit("\"not found\"");
    lemma_not_found_message_plain();
    assert(spec_quote("not found"@) =~= "\"not found\""@);
}

proof fn lemma_eb_body()
    ensures
        "{\"status\":404,\"message\":"@ + "\"not found\""@
            == "{\"status\":404,\"message\":\"not found\""@,
{
    reveal_strlit("{\"status\":404,\"message\":");
    reveal_strlit("\"not found\"");
    reveal_strlit("{\"status\":404,\"message\":\"not found\"");
    assert(("{\"status\":404,\"message\":"@ + "\"not found\""@)
        =~= "{\"status\":404,\"message\":\"not found\""@);
}

proof fn lemma_eb_close()
    ensures
        "{\"status\":404,\"message\":\"not found\""@ + "}"@
            == "{\"status\":404,\"message\":\"not found\"}"@,
{
    reveal_strlit("{\"status\":404,\"message\":\"not found\"");
    reveal_strlit("}");
    reveal_strlit("{\"status\":404,\"message\":\"not found\"}");
    assert(("{\"status\":404,\"message\":\"not found\""@ + "}"@)
        =~= "{\"status\":404,\"message\":\"not found\"}"@);
}

/// Identifiers minted from distinct counter values are non-empty and
/// distinct, so every created book's id differs from any previously
/// assigned one, deleted books included.
pub proof fn lemma_fresh_ids_distinct(a: nat, b: nat)
    requires
        a != b,
    ensures
        spec_nat_str(a) != spec_nat_str(b),
        spec_nat_str(a).len() > 0,
{
    lemma_nat_str_nonempty(a);
    if spec_nat_str(a) == spec_nat_str(b) {
        lemma_nat_str_injective(a, b);
    }
}

/// After a create, the JSON array a following list returns carries the
/// created book's JSON object verbatim: it is the array's final element.
#[verifier::rlimit(100)]
pub proof fn lemma_list_includes_created(bs: Seq<BookModel>, b: BookModel)
    ensures
        exists|k: int|
            0 <= k && k + spec_book_json(b).len() <= spec_books_json(bs.push(b)).len()
                && #[trigger] spec_books_json(bs.push(b)).subrange(
                k,
                k + spec_book_json(b).len(),
            ) == spec_book_json(b),
{
    let w = spec_books_json(bs.push(b));
    let j = spec_book_json(b);
    if bs.len() == 0 {
        assert(bs.push(b)[0] == b);
        assert(bs.push(b).drop_first() =~= Seq::<BookModel>::empty());
        assert(spec_books_tail(Seq::<BookModel>::empty()) =~= Seq::<char>::empty());
        assert(w =~= seq!['['] + j + Seq::<char>::empty() + seq![']']);
        assert(w.subrange(1, 1 + j.len() as int) =~= j);
    } else {
        assert(bs.push(b)[0] == bs[0]);
        assert(bs.push(b).drop_first() =~= bs.drop_first().push(b));
        lemma_books_tail_snoc(bs.drop_first(), b);
        let head = seq!['['] + spec_book_json(bs[0]) + spec_books_tail(bs.drop_first())
            + seq![','];
        assert(w =~= head + j + seq![']']);
        let k = head.len() as int;
        assert(w.subrange(k, k + j.len() as int) =~= j);
        assert(0 <= k && k + j.len() <= w.len());
    }
}

/// A book just created is included in the collection a following list
/// returns: it is the last element, with its fields intact, and everything
/// stored before is still there in order.
pub proof fn lemma_created_book_listed(pre: Seq<BookModel>, b: BookModel)
    ensures
        pre.push(b).contains(b),
        pre.push(b).last() == b,
        pre.push(b).len() == pre.len() + 1,
        forall|i: int| 0 <= i < pre.len() ==> pre.push(b)[i] == pre[i],
{
    assert(pre.push(b)[pre.len() as int] == b);
}

} // verus!
