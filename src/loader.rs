//! Reading a definitions document into a macro table.
use vstd::prelude::*;
use crate::error::MacroError;
use crate::scan::{parse_header, read_header, lemma_read_items_bounds};
use crate::table::{DefinitionView, MacroDefinition, MacroTable, strings_view};
use crate::text::{next_double, trim, lemma_next_double, find_double, trimmed, string_of, push_range};

verus! {

/// Loads the definitions of `t` from position `i` on into `acc`. Text before
/// each definition's opening double mark is skipped; a definition is
/// `"##" Name ("#" Param)* "##" Body "##"`, its body trimmed, and it replaces
/// any earlier definition of its name.
pub open spec fn load_from(t: Seq<char>, i: int, acc: Map<Seq<char>, DefinitionView>) -> Result<
    Map<Seq<char>, DefinitionView>,
    MacroError,
>
    decreases t.len() - i,
    when 0 <= i
    via load_from_decreases
{
    match next_double(t, i) {
        None => Ok(acc),
        Some(s) => match parse_header(t, s + 2) {
            None => Err(MacroError::MalformedDefinition),
            Some((name, params, q)) => match next_double(t, q) {
                None => Err(MacroError::MalformedDefinition),
                Some(b) => load_from(t, b + 2, acc.insert(name, (params, trim(t.subrange(q, b))))),
            },
        },
    }
}

#[via_fn]
proof fn load_from_decreases(t: Seq<char>, i: int, acc: Map<Seq<char>, DefinitionView>) {
    lemma_next_double(t, i);
    if let Some(s) = next_double(t, i) {
        lemma_read_items_bounds(t, s + 2, Seq::empty());
        if let Some((name, params, q)) = parse_header(t, s + 2) {
            lemma_next_double(t, q);
        }
    }
}

/// The table that the definitions document `t` describes.
pub open spec fn load_spec(t: Seq<char>) -> Result<Map<Seq<char>, DefinitionView>, MacroError> {
    load_from(t, 0, Map::empty())
}

/// The strings of a sequence of character vectors.
fn strings_of(v: &Vec<Vec<char>>) -> (r: Vec<String>)
    ensures
        strings_view(r@) == v@.map_values(|x: Vec<char>| x@),
{
    let mut r: Vec<String> = Vec::new();
    let mut k: usize = 0;
    while k < v.len()
        invariant
            k <= v.len(),
            r.len() == k,
            forall|j: int| 0 <= j < k ==> #[trigger] r@[j]@ == v@[j]@,
        decreases v.len() - k,
    {
        let mut cs: Vec<char> = Vec::new();
        push_range(&mut cs, &v[k], 0, v[k].len());
        assert(cs@ =~= v@[k as int]@);
        r.push(string_of(cs));
        k = k + 1;
    }
    assert(strings_view(r@) =~= v@.map_values(|x: Vec<char>| x@));
    r
}

/// Parses a definitions document into the table of its macros.
pub fn load_definitions(text: &str) -> (r: Result<MacroTable, MacroError>)
    ensures
        match r {
            Ok(table) => table.wf() && load_spec(text@) == Ok::<_, MacroError>(table@),
            Err(e) => load_spec(text@) == Err::<Map<Seq<char>, DefinitionView>, _>(e),
        },
{
    let t = crate::text::chars_of(text);
    let mut table = MacroTable::new();
    let mut i: usize = 0;
    loop
        invariant
            i <= t.len(),
            t@ == text@,
            table.wf(),
            load_spec(t@) == load_from(t@, i as int, table@),
        decreases t.len() - i,
    {
        proof {
            lemma_next_double(t@, i as int);
        }
        let s = match find_double(&t, i) {
            Some(s) => s,
            None => return Ok(table),
        };
        let h = match read_header(&t, s + 2) {
            Some(h) => h,
            None => return Err(MacroError::MalformedDefinition),
        };
        proof {
            lemma_read_items_bounds(t@, (s + 2) as int, Seq::empty());
            lemma_next_double(t@, h.end as int);
        }
        let b = match find_double(&t, h.end) {
            Some(b) => b,
            None => return Err(MacroError::MalformedDefinition),
        };
        let body = trimmed(&t, h.end, b);
        let def = MacroDefinition::new(strings_of(&h.items), string_of(body));
        table.insert(string_of(h.name), def);
        i = b + 2;
    }
}

} // verus!
