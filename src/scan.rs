//! The delimiter grammar shared by definitions and invocations:
//! `"##" Name ("#" Item)* "##"`, where an item is a parameter of a definition
//! or an argument of an invocation.
use vstd::prelude::*;
use crate::text::{
    MARK,
    next_mark,
    next_double,
    trim,
    lemma_next_mark,
    lemma_next_double,
    find_mark,
    find_double,
    trimmed,
};

verus! {

/// Reads the items of a header from cursor `c` on, after those already in
/// `items`. At each step the next double mark and the next single mark are
/// located independently: where they coincide the list ends, and the result is
/// the items with the position just past that double mark. Otherwise one more
/// item lies between the single mark and the mark after it. `None` where a
/// needed mark is missing.
pub open spec fn read_items(t: Seq<char>, c: int, items: Seq<Seq<char>>) -> Option<
    (Seq<Seq<char>>, int),
>
    decreases t.len() - c,
    when 0 <= c
    via read_items_decreases
{
    match (next_double(t, c), next_mark(t, c)) {
        (Some(d), Some(m)) => if d == m {
            Some((items, d + 2))
        } else {
            match next_mark(t, m + 1) {
                Some(e) => read_items(t, e, items.push(trim(t.subrange(m + 1, e)))),
                None => None,
            }
        },
        _ => None,
    }
}

#[via_fn]
proof fn read_items_decreases(t: Seq<char>, c: int, items: Seq<Seq<char>>) {
    lemma_next_mark(t, c);
    if let Some(m) = next_mark(t, c) {
        lemma_next_mark(t, m + 1);
    }
}

/// A header ends past the cursor it is read from, and within the text.
pub proof fn lemma_read_items_bounds(t: Seq<char>, c: int, items: Seq<Seq<char>>)
    requires
        0 <= c,
    ensures
        read_items(t, c, items) matches Some((_, end)) ==> c + 2 <= end <= t.len(),
    decreases t.len() - c,
{
    lemma_next_mark(t, c);
    lemma_next_double(t, c);
    if let Some(m) = next_mark(t, c) {
        lemma_next_mark(t, m + 1);
        if let Some(e) = next_mark(t, m + 1) {
            if next_double(t, c) != Some(m) {
                lemma_read_items_bounds(t, e, items.push(trim(t.subrange(m + 1, e))));
            }
        }
    }
}

/// The header that starts at `p`, just after its opening double mark: the
/// trimmed name (the text up to the first mark), the items, and the position
/// just past the closing double mark. `None` where the header is malformed.
pub open spec fn parse_header(t: Seq<char>, p: int) -> Option<(Seq<char>, Seq<Seq<char>>, int)> {
    match (next_mark(t, p), read_items(t, p, Seq::empty())) {
        (Some(n), Some((items, end))) => Some((trim(t.subrange(p, n)), items, end)),
        _ => None,
    }
}

/// The texts held by a sequence of character vectors.
pub open spec fn texts(v: Seq<Vec<char>>) -> Seq<Seq<char>> {
    v.map_values(|x: Vec<char>| x@)
}

/// A header read from a text: its name, its items, and where the text goes on.
pub struct Header {
    pub name: Vec<char>,
    pub items: Vec<Vec<char>>,
    pub end: usize,
}

impl Header {
    pub open spec fn spec_view(&self) -> (Seq<char>, Seq<Seq<char>>, int) {
        (self.name@, texts(self.items@), self.end as int)
    }
}

/// Reads the header that starts at `p`, just after its opening double mark.
pub fn read_header(t: &Vec<char>, p: usize) -> (r: Option<Header>)
    requires
        p <= t.len(),
    ensures
        match r {
            Some(h) => parse_header(t@, p as int) == Some(h.spec_view()) && h.end <= t.len(),
            None => parse_header(t@, p as int) is None,
        },
{
    let name_end = match find_mark(t, p) {
        Some(n) => n,
        None => return None,
    };
    proof {
        lemma_next_mark(t@, p as int);
    }
    let name = trimmed(t, p, name_end);
    let mut items: Vec<Vec<char>> = Vec::new();
    let mut c: usize = p;
    assert(texts(items@) =~= Seq::<Seq<char>>::empty());
    loop
        invariant
            p <= c <= t.len(),
            next_mark(t@, p as int) == Some(name_end as int),
            name@ == trim(t@.subrange(p as int, name_end as int)),
            read_items(t@, p as int, Seq::empty()) == read_items(t@, c as int, texts(items@)),
        decreases t.len() - c,
    {
        proof {
            lemma_next_mark(t@, c as int);
            lemma_next_double(t@, c as int);
        }
        let d = match find_double(t, c) {
            Some(d) => d,
            None => return None,
        };
        let m = match find_mark(t, c) {
            Some(m) => m,
            None => return None,
        };
        if d == m {
            let h = Header { name, items, end: d + 2 };
            return Some(h);
        }
        proof {
            lemma_next_mark(t@, m + 1);
        }
        let e = match find_mark(t, m + 1) {
            Some(e) => e,
            None => return None,
        };
        let item = trimmed(t, m + 1, e);
        let ghost before = texts(items@);
        items.push(item);
        assert(texts(items@) =~= before.push(trim(t@.subrange(m + 1, e as int))));
        c = e;
    }
}

} // verus!
