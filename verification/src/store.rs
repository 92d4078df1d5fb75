//! The in-memory model of the book collection: insert assigns fresh unique
//! identifiers from a counter, update and delete address books by identifier,
//! list returns the whole collection in storage order.
use vstd::prelude::*;
use crate::book::{Book, BookModel, BookInput, BookInputModel, models_of};
use crate::error::Error;
use crate::json::views_of;
use crate::num::{spec_nat_str, u64_to_string, lemma_nat_str_nonempty, lemma_nat_str_injective};

verus! {

/// A book after an update: the submitted fields replace the stored ones,
/// while `id` and `added_at` stay as they were.
pub open spec fn spec_updated(m: BookModel, inp: BookInputModel) -> BookModel {
    BookModel {
        id: m.id,
        name: inp.name,
        author: inp.author,
        num_pages: inp.num_pages,
        added_at: m.added_at,
        tags: inp.tags,
    }
}

/// The book collection. Identifiers are the decimal form of a counter that
/// only grows, so no two books — live or deleted — ever share one.
pub struct BookStore {
    pub books: Vec<Book>,
    pub next_id: u64,
}

impl BookStore {
    /// The stored collection, as a sequence of models in storage order.
    pub open spec fn models(&self) -> Seq<BookModel> {
        models_of(self.books@)
    }

    /// Identifiers are pairwise distinct, and each was minted by the counter.
    pub open spec fn inv(&self) -> bool {
        &&& forall|i: int, j: int|
            0 <= i < j < self.models().len() ==> (#[trigger] self.models()[i]).id != (
            #[trigger] self.models()[j]).id
        &&& forall|i: int|
            0 <= i < self.models().len() ==> exists|n: nat|
                n < self.next_id && (#[trigger] self.models()[i]).id == spec_nat_str(n)
    }

    /// A fresh, empty collection.
    pub fn init() -> (s: BookStore)
        ensures
            s.inv(),
            s.models() == Seq::<BookModel>::empty(),
            s.next_id == 0,
    {
        let s = BookStore { books: Vec::new(), next_id: 0 };
        proof {
            assert(s.models() =~= Seq::<BookModel>::empty());
        }
        s
    }

    /// The index of the book with the given identifier, if any is stored.
    pub fn find(&self, id: &str) -> (r: Option<usize>)
        ensures
            match r {
                Some(i) => i < self.models().len() && self.models()[i as int].id == id@,
                None => forall|i: int|
                    0 <= i < self.models().len() ==> (#[trigger] self.models()[i]).id != id@,
            },
    {
        let idw: String = id.to_owned();
        let n = self.books.len();
        let mut i: usize = 0;
        while i < n
            invariant
                i <= n,
                n == self.books@.len(),
                idw@ == id@,
                forall|j: int| 0 <= j < i ==> (#[trigger] self.models()[j]).id != id@,
            decreases n - i,
        {
            if self.books[i].id == idw {
                return Some(i);
            }
            i += 1;
        }
        None
    }

    /// Persists a new book under a fresh identifier: non-empty, and distinct
    /// from that of every book ever assigned one. Fails only when the
    /// identifier counter is exhausted.
    pub fn insert(
        &mut self,
        name: String,
        author: String,
        num_pages: usize,
        added_at: i64,
        tags: Vec<String>,
    ) -> (r: Result<Book, Error>)
        requires
            old(self).inv(),
        ensures
            final(self).inv(),
            match r {
                Ok(b) => {
                    &&& old(self).next_id < u64::MAX
                    &&& final(self).next_id == old(self).next_id + 1
                    &&& b@.id == spec_nat_str(old(self).next_id as nat)
                    &&& b@.id.len() > 0
                    &&& forall|i: int|
                        0 <= i < old(self).models().len() ==> (#[trigger] old(
                            self,
                        ).models()[i]).id != b@.id
                    &&& b@.name == name@
                    &&& b@.author == author@
                    &&& b@.num_pages == num_pages as nat
                    &&& b@.added_at == added_at as int
                    &&& b@.tags == views_of(tags@)
                    &&& final(self).models() == old(self).models().push(b@)
                },
                Err(e) => {
                    &&& e == Error::Storage
                    &&& old(self).next_id == u64::MAX
                    &&& *final(self) == *old(self)
                },
            },
    {
        if self.next_id == u64::MAX {
            return Err(Error::Storage);
        }
        let ghost pre = *self;
        let idn = self.next_id;
        self.next_id = idn + 1;
        let id = u64_to_string(idn);
        let b = Book { id, name, author, num_pages, added_at, tags };
        let ret = b.duplicate();
        self.books.push(b);
        proof {
            lemma_nat_str_nonempty(idn as nat);
            assert forall|i: int| 0 <= i < pre.models().len() implies (#[trigger] pre.models()[i]).id
                != spec_nat_str(idn as nat) by {
                let n = choose|n: nat| n < pre.next_id && pre.models()[i].id == spec_nat_str(n);
                if pre.models()[i].id == spec_nat_str(idn as nat) {
                    lemma_nat_str_injective(n, idn as nat);
                }
            }
            assert(self.models() =~= pre.models().push(ret@));
            assert forall|i: int| 0 <= i < self.models().len() implies exists|n: nat|
                n < self.next_id && (#[trigger] self.models()[i]).id == spec_nat_str(
                    n,
                ) by {
                if i < pre.models().len() {
                    let n = choose|n: nat| n < pre.next_id && pre.models()[i].id == spec_nat_str(n);
                    assert(n < self.next_id && self.models()[i].id == spec_nat_str(
                        n,
                    ));
                } else {
                    assert(self.models()[i].id == spec_nat_str(idn as nat));
                    assert((idn as nat) < self.next_id);
                }
            }
        }
        Ok(ret)
    }

    /// Replaces the stored fields of the book with the given identifier,
    /// keeping its `id` and `added_at`. Fails with `NotFound` — and changes
    /// nothing — exactly when no stored book has that identifier.
    pub fn update(&mut self, id: &str, input: BookInput) -> (r: Result<(), Error>)
        requires
            old(self).inv(),
        ensures
            final(self).inv(),
            match r {
                Ok(_) => {
                    &&& exists|i: int|
                        0 <= i < old(self).models().len() && (#[trigger] old(
                            self,
                        ).models()[i]).id == id@
                    &&& final(self).models().len() == old(self).models().len()
                    &&& final(self).next_id == old(self).next_id
                    &&& forall|i: int|
                        0 <= i < old(self).models().len() ==> #[trigger] final(self).models()[i]
                            == (if old(self).models()[i].id == id@ {
                            spec_updated(old(self).models()[i], input@)
                        } else {
                            old(self).models()[i]
                        })
                },
                Err(e) => {
                    &&& e == Error::NotFound
                    &&& *final(self) == *old(self)
                    &&& forall|i: int|
                        0 <= i < old(self).models().len() ==> (#[trigger] old(
                            self,
                        ).models()[i]).id != id@
                },
            },
    {
        let idx = match self.find(id) {
            None => { return Err(Error::NotFound); },
            Some(i) => i,
        };
        let ghost pre = *self;
        let BookInput { name, author, num_pages, tags } = input;
        let stored = &self.books[idx];
        let b = Book {
            id: stored.id.clone(),
            name,
            author,
            num_pages,
            added_at: stored.added_at,
            tags,
        };
        self.books.set(idx, b);
        proof {
            assert forall|i: int| 0 <= i < pre.models().len() implies #[trigger] self.models()[i] == (if pre.models()[i].id == id@ {
                spec_updated(pre.models()[i], input@)
            } else {
                pre.models()[i]
            }) by {
                if i != idx {
                    assert(self.books@[i] == pre.books@[i]);
                    if pre.models()[i].id == id@ {
                        assert(pre.models()[i].id == pre.models()[idx as int].id);
                    }
                }
            }
            assert forall|i: int, j: int| 0 <= i < j < self.models().len() implies (
            #[trigger] self.models()[i]).id != (#[trigger] self.models()[j]).id by {
                assert(self.models()[i].id == pre.models()[i].id);
                assert(self.models()[j].id == pre.models()[j].id);
            }
            assert forall|i: int| 0 <= i < self.models().len() implies exists|n: nat|
                n < self.next_id && (#[trigger] self.models()[i]).id == spec_nat_str(
                    n,
                ) by {
                let n = choose|n: nat| n < pre.next_id && pre.models()[i].id == spec_nat_str(n);
                assert(n < self.next_id && self.models()[i].id == spec_nat_str(n));
            }
        }
        Ok(())
    }

    /// Removes the book with the given identifier; afterwards no stored book
    /// has it. Fails with `NotFound` — and changes nothing — exactly when no
    /// stored book has that identifier.
    pub fn delete(&mut self, id: &str) -> (r: Result<(), Error>)
        requires
            old(self).inv(),
        ensures
            final(self).inv(),
            match r {
                Ok(_) => {
                    &&& exists|i: int|
                        0 <= i < old(self).models().len() && (#[trigger] old(
                            self,
                        ).models()[i]).id == id@ && final(self).models() == old(
                            self,
                        ).models().remove(i)
                    &&& final(self).next_id == old(self).next_id
                    &&& forall|j: int|
                        0 <= j < final(self).models().len() ==> (#[trigger] final(self).models()[j]).id != id@
                },
                Err(e) => {
                    &&& e == Error::NotFound
                    &&& *final(self) == *old(self)
                    &&& forall|i: int|
                        0 <= i < old(self).models().len() ==> (#[trigger] old(
                            self,
                        ).models()[i]).id != id@
                },
            },
    {
        let idx = match self.find(id) {
            None => { return Err(Error::NotFound); },
            Some(i) => i,
        };
        let ghost pre = *self;
        self.books.remove(idx);
        proof {
            assert(self.models() =~= pre.models().remove(idx as int));
            assert forall|j: int| 0 <= j < self.models().len() implies (#[trigger] self.models()[j]).id != id@ by {
                if j < idx {
                    assert(self.models()[j] == pre.models()[j]);
                } else {
                    assert(self.models()[j] == pre.models()[j + 1]);
                }
            }
            assert forall|i: int| 0 <= i < self.models().len() implies exists|n: nat|
                n < self.next_id && (#[trigger] self.models()[i]).id == spec_nat_str(
                    n,
                ) by {
                let src = if i < idx { i } else { i + 1 };
                let n = choose|n: nat| n < pre.next_id && pre.models()[src].id == spec_nat_str(n);
                assert(n < self.next_id && self.models()[i].id == spec_nat_str(n));
            }
        }
        Ok(())
    }

    /// The whole collection, in storage order, as independent copies.
    pub fn list(&self) -> (r: Vec<Book>)
        ensures
            models_of(r@) == self.models(),
    {
        let mut out: Vec<Book> = Vec::new();
        let n = self.books.len();
        let mut i: usize = 0;
        while i < n
            invariant
                i <= n,
                n == self.books@.len(),
                out@.len() == i,
                forall|j: int| 0 <= j < i ==> (#[trigger] out@[j])@ == self.books@[j]@,
            decreases n - i,
        {
            out.push(self.books[i].duplicate());
            i += 1;
        }
        proof {
            assert(models_of(out@) =~= self.models());
        }
        out
    }
}

} // verus!
