//! The book record, its mathematical model, and its JSON form: one object
//! with `id`, `name`, `author`, `num_pages`, `added_at` and `tags` members,
//! each exactly once in any order, with insignificant whitespace accepted
//! between tokens, and `added_at` carried as whole seconds since the Unix
//! epoch so a round trip preserves it to the second.
use vstd::prelude::*;
use crate::json::{
    spec_quote, spec_tags_json, spec_parse_quoted, spec_parse_tags, spec_skip_ws, is_ws, views_of,
    push_quoted, push_tags_json, parse_quoted, parse_tags, skip_ws, lemma_parse_quoted_round_trip,
    lemma_parse_tags_round_trip, lemma_parse_quoted_shrinks, lemma_parse_tags_shrinks,
    lemma_skip_ws_noop, lemma_skip_ws_len,
};
use crate::num::{
    spec_nat_str, spec_int_str, spec_parse_json_nat, spec_parse_int, is_digit, in_i64_range,
    push_u64_str, push_i64_str, parse_json_u64, parse_i64, lemma_parse_json_nat_round_trip,
    lemma_parse_int_round_trip, lemma_parse_json_nat_shrinks, lemma_parse_int_shrinks,
    lemma_nat_str_nonempty,
};

verus! {

/// The mathematical model of a stored book.
pub ghost struct BookModel {
    pub id: Seq<char>,
    pub name: Seq<char>,
    pub author: Seq<char>,
    pub num_pages: nat,
    pub added_at: int,
    pub tags: Seq<Seq<char>>,
}

/// A book record. `id` is assigned by the store on creation and never
/// changed; `added_at` is set at creation and not touched by updates.
pub struct Book {
    pub id: String,
    pub name: String,
    pub author: String,
    pub num_pages: usize,
    pub added_at: i64,
    pub tags: Vec<String>,
}

impl View for Book {
    type V = BookModel;

    open spec fn view(&self) -> BookModel {
        BookModel {
            id: self.id@,
            name: self.name@,
            author: self.author@,
            num_pages: self.num_pages as nat,
            added_at: self.added_at as int,
            tags: views_of(self.tags@),
        }
    }
}

/// The numeric fields of the model fit the machine types that carry them.
pub open spec fn wf_model(m: BookModel) -> bool {
    m.num_pages <= usize::MAX && in_i64_range(m.added_at)
}

impl Book {
    /// A field-for-field copy.
    pub fn duplicate(&self) -> (r: Book)
        ensures
            r@ == self@,
    {
        let mut tags: Vec<String> = Vec::new();
        let n = self.tags.len();
        let mut i: usize = 0;
        while i < n
            invariant
                i <= n,
                n == self.tags@.len(),
                tags@.len() == i,
                forall|j: int| 0 <= j < i ==> tags@[j]@ == self.tags@[j]@,
            decreases n - i,
        {
            tags.push(self.tags[i].clone());
            i += 1;
        }
        let r = Book {
            id: self.id.clone(),
            name: self.name.clone(),
            author: self.author.clone(),
            num_pages: self.num_pages,
            added_at: self.added_at,
            tags,
        };
        proof {
            assert(views_of(r.tags@) =~= views_of(self.tags@));
        }
        r
    }
}

/// One serialized object member: a quoted key, a colon, and the value.
pub open spec fn spec_member_json(key: Seq<char>, val: Seq<char>) -> Seq<char> {
    spec_quote(key) + seq![':'] + val
}

/// The JSON form of a book, in canonical member order with no whitespace.
pub open spec fn spec_book_json(m: BookModel) -> Seq<char> {
    seq!['{'] + spec_member_json("id"@, spec_quote(m.id)) + seq![','] + spec_member_json(
        "name"@,
        spec_quote(m.name),
    ) + seq![','] + spec_member_json("author"@, spec_quote(m.author)) + seq![','] + spec_member_json(
        "num_pages"@,
        spec_nat_str(m.num_pages),
    ) + seq![','] + spec_member_json("added_at"@, spec_int_str(m.added_at)) + seq![',']
        + spec_member_json("tags"@, spec_tags_json(m.tags)) + seq!['}']
}

/// Serializes a book to its JSON form.
pub fn book_to_json(b: &Book) -> (r: String)
    ensures
        r@ == spec_book_json(b@),
{
    let mut out = String::new();
    crate::text::push_char(&mut out, '{');
    push_quoted(&mut out, "id");
    crate::text::push_char(&mut out, ':');
    push_quoted(&mut out, b.id.as_str());
    crate::text::push_char(&mut out, ',');
    push_quoted(&mut out, "name");
    crate::text::push_char(&mut out, ':');
    push_quoted(&mut out, b.name.as_str());
    crate::text::push_char(&mut out, ',');
    push_quoted(&mut out, "author");
    crate::text::push_char(&mut out, ':');
    push_quoted(&mut out, b.author.as_str());
    crate::text::push_char(&mut out, ',');
    push_quoted(&mut out, "num_pages");
    crate::text::push_char(&mut out, ':');
    push_u64_str(&mut out, b.num_pages as u64);
    crate::text::push_char(&mut out, ',');
    push_quoted(&mut out, "added_at");
    crate::text::push_char(&mut out, ':');
    push_i64_str(&mut out, b.added_at);
    crate::text::push_char(&mut out, ',');
    push_quoted(&mut out, "tags");
    crate::text::push_char(&mut out, ':');
    push_tags_json(&mut out, &b.tags);
    crate::text::push_char(&mut out, '}');
    proof {
        assert(out@ =~= spec_book_json(b@));
    }
    out
}

/// The members read so far while parsing an object, each at most once.
pub ghost struct PartialBookModel {
    pub id: Option<Seq<char>>,
    pub name: Option<Seq<char>>,
    pub author: Option<Seq<char>>,
    pub num_pages: Option<nat>,
    pub added_at: Option<int>,
    pub tags: Option<Seq<Seq<char>>>,
}

pub open spec fn empty_partial() -> PartialBookModel {
    PartialBookModel { id: None, name: None, author: None, num_pages: None, added_at: None, tags: None }
}

pub struct PartialBook {
    pub id: Option<String>,
    pub name: Option<String>,
    pub author: Option<String>,
    pub num_pages: Option<usize>,
    pub added_at: Option<i64>,
    pub tags: Option<Vec<String>>,
}

impl View for PartialBook {
    type V = PartialBookModel;

    open spec fn view(&self) -> PartialBookModel {
        PartialBookModel {
            id: match self.id {
                Some(s) => Some(s@),
                None => None,
            },
            name: match self.name {
                Some(s) => Some(s@),
                None => None,
            },
            author: match self.author {
                Some(s) => Some(s@),
                None => None,
            },
            num_pages: match self.num_pages {
                Some(v) => Some(v as nat),
                None => None,
            },
            added_at: match self.added_at {
                Some(v) => Some(v as int),
                None => None,
            },
            tags: match self.tags {
                Some(v) => Some(views_of(v@)),
                None => None,
            },
        }
    }
}

/// Parse of one object member at the start of `s`: a quoted key, optional
/// whitespace, a colon, optional whitespace, and the value the key calls
/// for. A key already seen, an unknown key, or a numeric value outside its
/// machine type rejects the document.
pub open spec fn spec_parse_member(s: Seq<char>, acc: PartialBookModel) -> Option<
    (PartialBookModel, Seq<char>),
> {
    match spec_parse_quoted(s) {
        None => None,
        Some((key, r1)) => {
            let r2 = spec_skip_ws(r1);
            if !(r2.len() > 0 && r2[0] == ':') {
                None
            } else {
                let r3 = spec_skip_ws(r2.drop_first());
                if key == "id"@ {
                    if acc.id is Some {
                        None
                    } else {
                        match spec_parse_quoted(r3) {
                            None => None,
                            Some((v, r4)) => Some(
                                (PartialBookModel { id: Some(v), ..acc }, r4),
                            ),
                        }
                    }
                } else if key == "name"@ {
                    if acc.name is Some {
                        None
                    } else {
                        match spec_parse_quoted(r3) {
                            None => None,
                            Some((v, r4)) => Some(
                                (PartialBookModel { name: Some(v), ..acc }, r4),
                            ),
                        }
                    }
                } else if key == "author"@ {
                    if acc.author is Some {
                        None
                    } else {
                        match spec_parse_quoted(r3) {
                            None => None,
                            Some((v, r4)) => Some(
                                (PartialBookModel { author: Some(v), ..acc }, r4),
                            ),
                        }
                    }
                } else if key == "num_pages"@ {
                    if acc.num_pages is Some {
                        None
                    } else {
                        match spec_parse_json_nat(r3) {
                            None => None,
                            Some((v, r4)) => if v > usize::MAX {
                                None
                            } else {
                                Some((PartialBookModel { num_pages: Some(v), ..acc }, r4))
                            },
                        }
                    }
                } else if key == "added_at"@ {
                    if acc.added_at is Some {
                        None
                    } else {
                        match spec_parse_int(r3) {
                            None => None,
                            Some((v, r4)) => if !in_i64_range(v) {
                                None
                            } else {
                                Some((PartialBookModel { added_at: Some(v), ..acc }, r4))
                            },
                        }
                    }
                } else if key == "tags"@ {
                    if acc.tags is Some {
                        None
                    } else {
                        match spec_parse_tags(r3) {
                            None => None,
                            Some((v, r4)) => Some(
                                (PartialBookModel { tags: Some(v), ..acc }, r4),
                            ),
                        }
                    }
                } else {
                    None
                }
            }
        },
    }
}

/// A successful member parse consumes at least the key's quotes.
proof fn lemma_parse_member_shrinks(s: Seq<char>, acc: PartialBookModel)
    ensures
        spec_parse_member(s, acc) matches Some(p) ==> p.1.len() + 2 <= s.len(),
{
    lemma_parse_quoted_shrinks(s);
    match spec_parse_quoted(s) {
        None => {},
        Some((key, r1)) => {
            let r2 = spec_skip_ws(r1);
            lemma_skip_ws_len(r1);
            if r2.len() > 0 && r2[0] == ':' {
                let r3 = spec_skip_ws(r2.drop_first());
                lemma_skip_ws_len(r2.drop_first());
                lemma_parse_quoted_shrinks(r3);
                lemma_parse_json_nat_shrinks(r3);
                lemma_parse_int_shrinks(r3);
                lemma_parse_tags_shrinks(r3);
            }
        },
    }
}

/// Parse of an object's remaining members, after at least one was read: up
/// to whitespace, either the closing brace or a comma and another member.
/// `fuel` bounds the recursion; it is irrelevant as long as it exceeds the
/// member count.
pub open spec fn spec_parse_obj_more(s: Seq<char>, acc: PartialBookModel, fuel: nat) -> Option<
    (PartialBookModel, Seq<char>),
>
    decreases fuel,
{
    if fuel == 0 {
        None
    } else {
        let r = spec_skip_ws(s);
        if r.len() > 0 && r[0] == '}' {
            Some((acc, r.drop_first()))
        } else if r.len() > 0 && r[0] == ',' {
            match spec_parse_member(spec_skip_ws(r.drop_first()), acc) {
                None => None,
                Some((acc2, r2)) => spec_parse_obj_more(r2, acc2, (fuel - 1) as nat),
            }
        } else {
            None
        }
    }
}

/// Parse of a whole object, with every member landing in its slot.
pub open spec fn spec_parse_obj(s: Seq<char>) -> Option<(PartialBookModel, Seq<char>)> {
    let r = spec_skip_ws(s);
    if r.len() > 0 && r[0] == '{' {
        let r1 = spec_skip_ws(r.drop_first());
        if r1.len() > 0 && r1[0] == '}' {
            Some((empty_partial(), r1.drop_first()))
        } else {
            match spec_parse_member(r1, empty_partial()) {
                None => None,
                Some((acc, r2)) => spec_parse_obj_more(r2, acc, r2.len() + 1),
            }
        }
    } else {
        None
    }
}

/// Parses one object member, mirroring `spec_parse_member`.
fn parse_member<'a>(s: &'a str, acc: PartialBook) -> (r: Option<(PartialBook, &'a str)>)
    ensures
        match r {
            Some(p) => spec_parse_member(s@, acc@) == Some((p.0@, p.1@)),
            None => spec_parse_member(s@, acc@) is None,
        },
{
    let (key, r1) = match parse_quoted(s) {
        None => { return None; },
        Some(p) => p,
    };
    let r2 = skip_ws(r1);
    let n2 = r2.unicode_len();
    if n2 == 0 || r2.get_char(0) != ':' {
        return None;
    }
    let r3a = r2.substring_char(1, n2);
    proof {
        assert(r3a@ =~= r2@.drop_first());
    }
    let r3 = skip_ws(r3a);
    let PartialBook { id, name, author, num_pages, added_at, tags } = acc;
    if key == "id".to_owned() {
        if id.is_some() {
            return None;
        }
        match parse_quoted(r3) {
            None => None,
            Some((v, r4)) => Some(
                (PartialBook { id: Some(v), name, author, num_pages, added_at, tags }, r4),
            ),
        }
    } else if key == "name".to_owned() {
        if name.is_some() {
            return None;
        }
        match parse_quoted(r3) {
            None => None,
            Some((v, r4)) => Some(
                (PartialBook { id, name: Some(v), author, num_pages, added_at, tags }, r4),
            ),
        }
    } else if key == "author".to_owned() {
        if author.is_some() {
            return None;
        }
        match parse_quoted(r3) {
            None => None,
            Some((v, r4)) => Some(
                (PartialBook { id, name, author: Some(v), num_pages, added_at, tags }, r4),
            ),
        }
    } else if key == "num_pages".to_owned() {
        if num_pages.is_some() {
            return None;
        }
        match parse_json_u64(r3) {
            None => None,
            Some((v, r4)) => {
                if v > usize::MAX as u64 {
                    None
                } else {
                    Some(
                        (
                            PartialBook {
                                id,
                                name,
                                author,
                                num_pages: Some(v as usize),
                                added_at,
                                tags,
                            },
                            r4,
                        ),
                    )
                }
            },
        }
    } else if key == "added_at".to_owned() {
        if added_at.is_some() {
            return None;
        }
        match parse_i64(r3) {
            None => None,
            Some((v, r4)) => Some(
                (PartialBook { id, name, author, num_pages, added_at: Some(v), tags }, r4),
            ),
        }
    } else if key == "tags".to_owned() {
        if tags.is_some() {
            return None;
        }
        match parse_tags(r3) {
            None => None,
            Some((v, r4)) => Some(
                (PartialBook { id, name, author, num_pages, added_at, tags: Some(v) }, r4),
            ),
        }
    } else {
        None
    }
}

/// Parses an object's remaining members, mirroring `spec_parse_obj_more`.
fn parse_obj_more<'a>(s: &'a str, acc: PartialBook, Ghost(fuel): Ghost<nat>) -> (r: Option<
    (PartialBook, &'a str),
>)
    requires
        fuel >= s@.len() + 1,
    ensures
        match r {
            Some(p) => spec_parse_obj_more(s@, acc@, fuel) == Some((p.0@, p.1@)),
            None => spec_parse_obj_more(s@, acc@, fuel) is None,
        },
    decreases s@.len(),
{
    let w = skip_ws(s);
    proof {
        lemma_skip_ws_len(s@);
    }
    let n = w.unicode_len();
    if n == 0 {
        return None;
    }
    let c = w.get_char(0);
    if c == '}' {
        let rest = w.substring_char(1, n);
        proof {
            assert(rest@ =~= w@.drop_first());
        }
        return Some((acc, rest));
    }
    if c != ',' {
        return None;
    }
    let after0 = w.substring_char(1, n);
    proof {
        assert(after0@ =~= w@.drop_first());
    }
    let after = skip_ws(after0);
    proof {
        lemma_skip_ws_len(after0@);
    }
    match parse_member(after, acc) {
        None => None,
        Some((acc2, r2)) => {
            proof {
                lemma_parse_member_shrinks(after@, acc@);
            }
            parse_obj_more(r2, acc2, Ghost((fuel - 1) as nat))
        },
    }
}

/// Parses a whole object, mirroring `spec_parse_obj`.
fn parse_obj<'a>(s: &'a str) -> (r: Option<(PartialBook, &'a str)>)
    ensures
        match r {
            Some(p) => spec_parse_obj(s@) == Some((p.0@, p.1@)),
            None => spec_parse_obj(s@) is None,
        },
{
    let w = skip_ws(s);
    let n = w.unicode_len();
    if n == 0 || w.get_char(0) != '{' {
        return None;
    }
    let inner0 = w.substring_char(1, n);
    proof {
        assert(inner0@ =~= w@.drop_first());
    }
    let inner = skip_ws(inner0);
    proof {
        lemma_skip_ws_len(inner0@);
    }
    let m = inner.unicode_len();
    let acc0 = PartialBook {
        id: None,
        name: None,
        author: None,
        num_pages: None,
        added_at: None,
        tags: None,
    };
    if m > 0 && inner.get_char(0) == '}' {
        let rest = inner.substring_char(1, m);
        proof {
            assert(rest@ =~= inner@.drop_first());
        }
        return Some((acc0, rest));
    }
    match parse_member(inner, acc0) {
        None => None,
        Some((acc, r2)) => {
            proof {
                lemma_parse_member_shrinks(inner@, acc0@);
            }
            let ghost fuel: nat = r2@.len() + 1;
            parse_obj_more(r2, acc, Ghost(fuel))
        },
    }
}

/// Parse of a book from JSON: an object holding all six members, each
/// exactly once, in any order, and nothing but whitespace after it. `None`
/// on any malformed input, or when a numeric member does not fit its
/// machine type.
pub open spec fn spec_parse_book(s: Seq<char>) -> Option<BookModel> {
    match spec_parse_obj(s) {
        None => None,
        Some((p, rest)) => if spec_skip_ws(rest).len() != 0 {
            None
        } else if p.id is Some && p.name is Some && p.author is Some && p.num_pages is Some
            && p.added_at is Some && p.tags is Some {
            Some(
                BookModel {
                    id: p.id.unwrap(),
                    name: p.name.unwrap(),
                    author: p.author.unwrap(),
                    num_pages: p.num_pages.unwrap(),
                    added_at: p.added_at.unwrap(),
                    tags: p.tags.unwrap(),
                },
            )
        } else {
            None
        },
    }
}

/// Parses a book from its JSON form.
pub fn parse_book(s: &str) -> (r: Option<Book>)
    ensures
        match r {
            Some(b) => spec_parse_book(s@) == Some(b@),
            None => spec_parse_book(s@) is None,
        },
{
    let (p, rest) = match parse_obj(s) {
        None => { return None; },
        Some(x) => x,
    };
    if skip_ws(rest).unicode_len() != 0 {
        return None;
    }
    let PartialBook { id, name, author, num_pages, added_at, tags } = p;
    match (id, name, author, num_pages, added_at, tags) {
        (Some(id), Some(name), Some(author), Some(num_pages), Some(added_at), Some(tags)) => Some(
            Book { id, name, author, num_pages, added_at, tags },
        ),
        _ => None,
    }
}

/// The model of a create or update payload: a book without `id` and
/// `added_at`, which the store assigns.
pub ghost struct BookInputModel {
    pub name: Seq<char>,
    pub author: Seq<char>,
    pub num_pages: nat,
    pub tags: Seq<Seq<char>>,
}

/// The fields a client submits to create or update a book.
pub struct BookInput {
    pub name: String,
    pub author: String,
    pub num_pages: usize,
    pub tags: Vec<String>,
}

impl View for BookInput {
    type V = BookInputModel;

    open spec fn view(&self) -> BookInputModel {
        BookInputModel {
            name: self.name@,
            author: self.author@,
            num_pages: self.num_pages as nat,
            tags: views_of(self.tags@),
        }
    }
}

/// Parse of a create/update payload: an object with exactly the `name`,
/// `author`, `num_pages` and `tags` members, in any order — no `id` or
/// `added_at`, which the store assigns.
pub open spec fn spec_parse_book_input(s: Seq<char>) -> Option<BookInputModel> {
    match spec_parse_obj(s) {
        None => None,
        Some((p, rest)) => if spec_skip_ws(rest).len() != 0 {
            None
        } else if p.id is None && p.added_at is None && p.name is Some && p.author is Some
            && p.num_pages is Some && p.tags is Some {
            Some(
                BookInputModel {
                    name: p.name.unwrap(),
                    author: p.author.unwrap(),
                    num_pages: p.num_pages.unwrap(),
                    tags: p.tags.unwrap(),
                },
            )
        } else {
            None
        },
    }
}

/// Parses a create/update payload from JSON.
pub fn parse_book_input(s: &str) -> (r: Option<BookInput>)
    ensures
        match r {
            Some(b) => spec_parse_book_input(s@) == Some(b@),
            None => spec_parse_book_input(s@) is None,
        },
{
    let (p, rest) = match parse_obj(s) {
        None => { return None; },
        Some(x) => x,
    };
    if skip_ws(rest).unicode_len() != 0 {
        return None;
    }
    let PartialBook { id, name, author, num_pages, added_at, tags } = p;
    if id.is_some() || added_at.is_some() {
        return None;
    }
    match (name, author, num_pages, tags) {
        (Some(name), Some(author), Some(num_pages), Some(tags)) => Some(
            BookInput { name, author, num_pages, tags },
        ),
        _ => None,
    }
}

/// The facts a parse needs at one canonical member: the quoted key parses
/// back, the colon follows with no whitespace around it, and the value sits
/// directly after.
proof fn lemma_member_prelude(key: Seq<char>, v: Seq<char>, tail: Seq<char>)
    requires
        v.len() > 0,
        !is_ws(v[0]),
    ensures
        spec_parse_quoted(spec_member_json(key, v) + tail) == Some((key, seq![':'] + (v + tail))),
        spec_skip_ws(seq![':'] + (v + tail)) == seq![':'] + (v + tail),
        (seq![':'] + (v + tail))[0] == ':',
        (seq![':'] + (v + tail)).drop_first() == v + tail,
        spec_skip_ws(v + tail) == v + tail,
{
    assert(spec_member_json(key, v) + tail =~= spec_quote(key) + (seq![':'] + (v + tail)));
    lemma_parse_quoted_round_trip(key, seq![':'] + (v + tail));
    lemma_skip_ws_noop(seq![':'] + (v + tail));
    assert((seq![':'] + (v + tail)).drop_first() =~= v + tail);
    assert((v + tail)[0] == v[0]);
    lemma_skip_ws_noop(v + tail);
}

/// One canonical quoted-string member parses into its slot.
proof fn lemma_member_id(val: Seq<char>, tail: Seq<char>, acc: PartialBookModel)
    requires
        acc.id is None,
    ensures
        spec_parse_member(spec_member_json("id"@, spec_quote(val)) + tail, acc) == Some(
            (PartialBookModel { id: Some(val), ..acc }, tail),
        ),
{
    lemma_member_prelude("id"@, spec_quote(val), tail);
    lemma_parse_quoted_round_trip(val, tail);
}

proof fn lemma_member_name(val: Seq<char>, tail: Seq<char>, acc: PartialBookModel)
    requires
        acc.name is None,
    ensures
        spec_parse_member(spec_member_json("name"@, spec_quote(val)) + tail, acc) == Some(
            (PartialBookModel { name: Some(val), ..acc }, tail),
        ),
{
    reveal_strlit("id");
    reveal_strlit("name");
    lemma_member_prelude("name"@, spec_quote(val), tail);
    lemma_parse_quoted_round_trip(val, tail);
}

proof fn lemma_member_author(val: Seq<char>, tail: Seq<char>, acc: PartialBookModel)
    requires
        acc.author is None,
    ensures
        spec_parse_member(spec_member_json("author"@, spec_quote(val)) + tail, acc) == Some(
            (PartialBookModel { author: Some(val), ..acc }, tail),
        ),
{
    reveal_strlit("id");
    reveal_strlit("name");
    reveal_strlit("author");
    lemma_member_prelude("author"@, spec_quote(val), tail);
    lemma_parse_quoted_round_trip(val, tail);
}

proof fn lemma_member_num_pages(np: nat, tail: Seq<char>, acc: PartialBookModel)
    requires
        acc.num_pages is None,
        np <= usize::MAX,
        tail.len() > 0,
        !is_digit(tail[0]),
    ensures
        spec_parse_member(spec_member_json("num_pages"@, spec_nat_str(np)) + tail, acc) == Some(
            (PartialBookModel { num_pages: Some(np), ..acc }, tail),
        ),
{
    reveal_strlit("id");
    reveal_strlit("name");
    reveal_strlit("author");
    reveal_strlit("num_pages");
    lemma_nat_str_nonempty(np);
    assert(!is_ws(spec_nat_str(np)[0]));
    lemma_member_prelude("num_pages"@, spec_nat_str(np), tail);
    lemma_parse_json_nat_round_trip(np, tail);
}

proof fn lemma_member_added_at(ts: int, tail: Seq<char>, acc: PartialBookModel)
    requires
        acc.added_at is None,
        in_i64_range(ts),
        tail.len() > 0,
        !is_digit(tail[0]),
    ensures
        spec_parse_member(spec_member_json("added_at"@, spec_int_str(ts)) + tail, acc) == Some(
            (PartialBookModel { added_at: Some(ts), ..acc }, tail),
        ),
{
    reveal_strlit("id");
    reveal_strlit("name");
    reveal_strlit("author");
    reveal_strlit("num_pages");
    reveal_strlit("added_at");
    if ts < 0 {
        assert(spec_int_str(ts)[0] == '-');
    } else {
        lemma_nat_str_nonempty(ts as nat);
        assert(spec_int_str(ts)[0] == spec_nat_str(ts as nat)[0]);
    }
    assert(!is_ws(spec_int_str(ts)[0]));
    lemma_member_prelude("added_at"@, spec_int_str(ts), tail);
    lemma_parse_int_round_trip(ts, tail);
}

proof fn lemma_member_tags(val: Seq<Seq<char>>, tail: Seq<char>, acc: PartialBookModel)
    requires
        acc.tags is None,
    ensures
        spec_parse_member(spec_member_json("tags"@, spec_tags_json(val)) + tail, acc) == Some(
            (PartialBookModel { tags: Some(val), ..acc }, tail),
        ),
{
    reveal_strlit("id");
    reveal_strlit("name");
    reveal_strlit("author");
    reveal_strlit("num_pages");
    reveal_strlit("added_at");
    reveal_strlit("tags");
    assert(spec_tags_json(val)[0] == '[');
    lemma_member_prelude("tags"@, spec_tags_json(val), tail);
    lemma_parse_tags_round_trip(val, tail);
}

/// A book serialized to JSON and parsed back is recovered field for field,
/// `tags` order and `added_at` value included.
#[verifier::rlimit(100)]
pub proof fn lemma_book_json_round_trip(m: BookModel)
    requires
        wf_model(m),
    ensures
        spec_parse_book(spec_book_json(m)) == Some(m),
{
    let w = spec_book_json(m);
    let m1 = spec_member_json("id"@, spec_quote(m.id));
    let m2 = spec_member_json("name"@, spec_quote(m.name));
    let m3 = spec_member_json("author"@, spec_quote(m.author));
    let m4 = spec_member_json("num_pages"@, spec_nat_str(m.num_pages));
    let m5 = spec_member_json("added_at"@, spec_int_str(m.added_at));
    let m6 = spec_member_json("tags"@, spec_tags_json(m.tags));
    let s6 = m6 + seq!['}'];
    let s5 = m5 + (seq![','] + s6);
    let s4 = m4 + (seq![','] + s5);
    let s3 = m3 + (seq![','] + s4);
    let s2 = m2 + (seq![','] + s3);
    let s1 = m1 + (seq![','] + s2);
    assert(w =~= seq!['{'] + s1);
    // Walk the object: brace, then the six members in order, then the brace.
    lemma_skip_ws_noop(w);
    assert(w[0] == '{');
    assert(w.drop_first() =~= s1);
    assert(s1[0] == '"');
    lemma_skip_ws_noop(s1);
    let a0 = empty_partial();
    lemma_member_id(m.id, seq![','] + s2, a0);
    let a1 = PartialBookModel { id: Some(m.id), ..a0 };
    lemma_member_name(m.name, seq![','] + s3, a1);
    let a2 = PartialBookModel { name: Some(m.name), ..a1 };
    lemma_member_author(m.author, seq![','] + s4, a2);
    let a3 = PartialBookModel { author: Some(m.author), ..a2 };
    assert((seq![','] + s5)[0] == ',');
    lemma_member_num_pages(m.num_pages, seq![','] + s5, a3);
    let a4 = PartialBookModel { num_pages: Some(m.num_pages), ..a3 };
    assert((seq![','] + s6)[0] == ',');
    lemma_member_added_at(m.added_at, seq![','] + s6, a4);
    let a5 = PartialBookModel { added_at: Some(m.added_at), ..a4 };
    lemma_member_tags(m.tags, seq!['}'], a5);
    let a6 = PartialBookModel { tags: Some(m.tags), ..a5 };
    // Fold the loop: each comma hands the next member to the accumulator.
    lemma_skip_ws_noop(seq!['}']);
    assert(seq!['}'].drop_first() =~= Seq::<char>::empty());
    lemma_comma_step(s2);
    lemma_comma_step(s3);
    lemma_comma_step(s4);
    lemma_comma_step(s5);
    lemma_comma_step(s6);
    assert(spec_parse_obj_more(seq!['}'], a6, 1) == Some((a6, Seq::<char>::empty())));
    assert(spec_parse_obj_more(seq![','] + s6, a5, 2) == Some((a6, Seq::<char>::empty())));
    assert(spec_parse_obj_more(seq![','] + s5, a4, 3) == Some((a6, Seq::<char>::empty())));
    assert(spec_parse_obj_more(seq![','] + s4, a3, 4) == Some((a6, Seq::<char>::empty())));
    assert(spec_parse_obj_more(seq![','] + s3, a2, 5) == Some((a6, Seq::<char>::empty())));
    assert(spec_parse_obj_more(seq![','] + s2, a1, 6) == Some((a6, Seq::<char>::empty())));
    lemma_obj_more_fuel(seq![','] + s2, a1, 6, (seq![','] + s2).len() + 1);
    assert(spec_parse_obj(w) == Some((a6, Seq::<char>::empty())));
    lemma_skip_ws_noop(Seq::<char>::empty());
}

/// The text at a member boundary starts with a comma, then the member.
proof fn lemma_comma_step(s: Seq<char>)
    requires
        s.len() > 0,
        s[0] == '"',
    ensures
        spec_skip_ws(seq![','] + s) == seq![','] + s,
        (seq![','] + s)[0] == ',',
        (seq![','] + s)[0] != '}',
        (seq![','] + s).drop_first() == s,
        spec_skip_ws(s) == s,
{
    lemma_skip_ws_noop(seq![','] + s);
    assert((seq![','] + s).drop_first() =~= s);
    lemma_skip_ws_noop(s);
}

/// A member's serialized form starts with its quoted key.
proof fn lemma_obj_more_step(key: Seq<char>, v: Seq<char>, s: Seq<char>, tail: Seq<char>)
    requires
        v.len() > 0,
        !is_ws(v[0]),
        s == spec_member_json(key, v) + tail,
    ensures
        s.len() > 0,
        s[0] == '"',
        spec_parse_quoted(s) == Some((key, seq![':'] + (v + tail))),
        spec_skip_ws(seq![':'] + (v + tail)) == seq![':'] + (v + tail),
        (seq![':'] + (v + tail))[0] == ':',
        (seq![':'] + (v + tail)).drop_first() == v + tail,
        spec_skip_ws(v + tail) == v + tail,
{
    assert(s[0] == '"');
    lemma_member_prelude(key, v, tail);
}

/// Larger fuel never changes a successful object parse.
proof fn lemma_obj_more_fuel(s: Seq<char>, acc: PartialBookModel, f1: nat, f2: nat)
    requires
        f1 <= f2,
        spec_parse_obj_more(s, acc, f1) is Some,
    ensures
        spec_parse_obj_more(s, acc, f2) == spec_parse_obj_more(s, acc, f1),
    decreases f1,
{
    if f1 > 0 {
        let r = spec_skip_ws(s);
        if r.len() > 0 && r[0] == '}' {
        } else if r.len() > 0 && r[0] == ',' {
            match spec_parse_member(spec_skip_ws(r.drop_first()), acc) {
                None => {},
                Some((acc2, r2)) => {
                    lemma_obj_more_fuel(r2, acc2, (f1 - 1) as nat, (f2 - 1) as nat);
                },
            }
        }
    }
}

/// The tail of a serialized book array: a comma and a book per element.
pub open spec fn spec_books_tail(bs: Seq<BookModel>) -> Seq<char>
    decreases bs.len(),
{
    if bs.len() == 0 {
        Seq::empty()
    } else {
        seq![','] + spec_book_json(bs[0]) + spec_books_tail(bs.drop_first())
    }
}

/// A book collection as a JSON array; empty collections print as `[]`.
pub open spec fn spec_books_json(bs: Seq<BookModel>) -> Seq<char> {
    if bs.len() == 0 {
        seq!['[', ']']
    } else {
        seq!['['] + spec_book_json(bs[0]) + spec_books_tail(bs.drop_first()) + seq![']']
    }
}

/// An empty collection serializes to the two-character array `[]`, never to
/// anything empty or missing.
pub proof fn lemma_books_json_empty()
    ensures
        spec_books_json(Seq::<BookModel>::empty()) == "[]"@,
{
    reveal_strlit("[]");
    assert(spec_books_json(Seq::<BookModel>::empty()) =~= "[]"@);
}

pub proof fn lemma_books_tail_snoc(bs: Seq<BookModel>, b: BookModel)
    ensures
        spec_books_tail(bs.push(b)) == spec_books_tail(bs) + (seq![','] + spec_book_json(b)),
    decreases bs.len(),
{
    if bs.len() == 0 {
        assert(bs.push(b).drop_first() =~= Seq::<BookModel>::empty());
        assert(spec_books_tail(Seq::<BookModel>::empty()) =~= Seq::<char>::empty());
        assert(spec_books_tail(bs.push(b)) =~= seq![','] + spec_book_json(b));
        assert(spec_books_tail(bs) =~= Seq::<char>::empty());
        assert(spec_books_tail(bs) + (seq![','] + spec_book_json(b)) =~= seq![','] + spec_book_json(
            b,
        ));
    } else {
        assert(bs.push(b).drop_first() =~= bs.drop_first().push(b));
        lemma_books_tail_snoc(bs.drop_first(), b);
        assert(bs.push(b)[0] == bs[0]);
        assert(seq![','] + spec_book_json(bs[0]) + (spec_books_tail(bs.drop_first()) + (seq![',']
            + spec_book_json(b))) =~= (seq![','] + spec_book_json(bs[0]) + spec_books_tail(
            bs.drop_first(),
        )) + (seq![','] + spec_book_json(b)));
    }
}

/// The sequence of book models held by a vector of books.
pub open spec fn models_of(v: Seq<Book>) -> Seq<BookModel> {
    v.map_values(|b: Book| b@)
}

/// Serializes a whole collection to a JSON array.
pub fn books_to_json(books: &Vec<Book>) -> (r: String)
    ensures
        r@ == spec_books_json(models_of(books@)),
{
    let mut out = String::new();
    let n = books.len();
    crate::text::push_char(&mut out, '[');
    let mut i: usize = 0;
    while i < n
        invariant
            i <= n,
            n == books@.len(),
            out@ == seq!['['] + (if i == 0 {
                Seq::<char>::empty()
            } else {
                spec_book_json(models_of(books@)[0]) + spec_books_tail(
                    models_of(books@).subrange(1, i as int),
                )
            }),
        decreases n - i,
    {
        if i > 0 {
            crate::text::push_char(&mut out, ',');
        }
        let piece = book_to_json(&books[i]);
        out.append(piece.as_str());
        proof {
            let vs = models_of(books@);
            if i == 0 {
                assert(out@ =~= seq!['['] + (spec_book_json(vs[0]) + spec_books_tail(
                    vs.subrange(1, 1),
                )));
            } else {
                assert(vs.subrange(1, i as int + 1) =~= vs.subrange(1, i as int).push(vs[i as int]));
                lemma_books_tail_snoc(vs.subrange(1, i as int), vs[i as int]);
                assert(out@ =~= seq!['['] + (spec_book_json(vs[0]) + spec_books_tail(
                    vs.subrange(1, i as int + 1),
                )));
            }
        }
        i += 1;
    }
    crate::text::push_char(&mut out, ']');
    proof {
        let vs = models_of(books@);
        if n == 0 {
            assert(out@ =~= spec_books_json(vs));
        } else {
            assert(vs.subrange(1, n as int) =~= vs.drop_first());
            assert(out@ =~= spec_books_json(vs));
        }
    }
    out
}

} // verus!
