//! Expanding the invocations of a source document against a macro table.
use vstd::prelude::*;
use crate::error::MacroError;
use crate::scan::{parse_header, read_header, texts, lemma_read_items_bounds};
use crate::table::{DefinitionView, MacroDefinition, MacroTable, strings_view};
use crate::text::{
    next_double,
    replace_all,
    lemma_next_double,
    chars_of,
    find_double,
    push_range,
    replace,
    string_of,
};

verus! {

/// `body` after the first `k` parameters have been replaced, in order, each
/// by its argument. Each pass works on the result of the passes before it.
pub open spec fn substitute_upto(
    body: Seq<char>,
    params: Seq<Seq<char>>,
    args: Seq<Seq<char>>,
    k: nat,
) -> Seq<char>
    decreases k,
{
    if k == 0 {
        body
    } else {
        replace_all(
            substitute_upto(body, params, args, (k - 1) as nat),
            params[k - 1],
            args[k - 1],
        )
    }
}

/// `body` with every parameter replaced by its argument, parameter by
/// parameter in the order of `params`.
pub open spec fn substitute(body: Seq<char>, params: Seq<Seq<char>>, args: Seq<Seq<char>>) -> Seq<
    char,
> {
    substitute_upto(body, params, args, params.len())
}

/// The expansion of `t` from position `i` on against the table `tb`. Text
/// before each invocation's opening double mark is copied; the invocation is
/// replaced by its macro's body with the arguments substituted, and that text
/// is not scanned again. The first failure ends the expansion.
pub open spec fn expand_from(t: Seq<char>, i: int, tb: Map<Seq<char>, DefinitionView>) -> Result<
    Seq<char>,
    MacroError,
>
    decreases t.len() - i,
    when 0 <= i <= t.len()
    via expand_from_decreases
{
    match next_double(t, i) {
        None => Ok(t.subrange(i, t.len() as int)),
        Some(s) => match parse_header(t, s + 2) {
            None => Err(MacroError::MalformedInvocation),
            Some((name, args, q)) => if !tb.contains_key(name) {
                Err(MacroError::UnknownMacro)
            } else if args.len() != tb[name].0.len() {
                Err(MacroError::ArgumentCountMismatch)
            } else {
                match expand_from(t, q, tb) {
                    Ok(rest) => Ok(t.subrange(i, s) + substitute(tb[name].1, tb[name].0, args) + rest),
                    Err(e) => Err(e),
                }
            },
        },
    }
}

#[via_fn]
proof fn expand_from_decreases(t: Seq<char>, i: int, tb: Map<Seq<char>, DefinitionView>) {
    lemma_next_double(t, i);
    if let Some(s) = next_double(t, i) {
        lemma_read_items_bounds(t, s + 2, Seq::empty());
    }
}

/// The expansion of the source document `t` against the table `tb`.
pub open spec fn expand_spec(tb: Map<Seq<char>, DefinitionView>, t: Seq<char>) -> Result<
    Seq<char>,
    MacroError,
> {
    expand_from(t, 0, tb)
}

/// `r` with `pre` put before the text it holds, if it holds one.
pub open spec fn prefixed(pre: Seq<char>, r: Result<Seq<char>, MacroError>) -> Result<
    Seq<char>,
    MacroError,
> {
    match r {
        Ok(x) => Ok(pre + x),
        Err(e) => Err(e),
    }
}

/// The body of `def` with `args` substituted for its parameters.
fn instantiate_chars(def: &MacroDefinition, args: &Vec<Vec<char>>) -> (r: Vec<char>)
    requires
        args.len() == def.params.len(),
    ensures
        r@ == substitute(def@.1, def@.0, texts(args@)),
{
    let mut body = chars_of(def.body.as_str());
    let mut k: usize = 0;
    while k < args.len()
        invariant
            k <= args.len() == def.params.len(),
            body@ == substitute_upto(def@.1, def@.0, texts(args@), k as nat),
        decreases args.len() - k,
    {
        let param = chars_of(def.params[k].as_str());
        body = replace(&body, &param, &args[k]);
        k = k + 1;
    }
    body
}

impl MacroDefinition {
    /// The body with each parameter replaced by the argument at its position,
    /// parameter by parameter in order; later replacements also act on text
    /// that earlier ones put in.
    pub fn instantiate(&self, args: &Vec<String>) -> (r: String)
        requires
            args.len() == self.params.len(),
        ensures
            r@ == substitute(self@.1, self@.0, strings_view(args@)),
    {
        let mut cs: Vec<Vec<char>> = Vec::new();
        let mut k: usize = 0;
        while k < args.len()
            invariant
                k <= args.len(),
                cs.len() == k,
                forall|j: int| 0 <= j < k ==> #[trigger] cs@[j]@ == args@[j]@,
            decreases args.len() - k,
        {
            cs.push(chars_of(args[k].as_str()));
            k = k + 1;
        }
        assert(texts(cs@) =~= strings_view(args@));
        string_of(instantiate_chars(self, &cs))
    }
}

/// Expands every invocation in the source document `text` against `table`.
pub fn expand(table: &MacroTable, text: &str) -> (r: Result<String, MacroError>)
    requires
        table.wf(),
    ensures
        match r {
            Ok(s) => expand_spec(table@, text@) == Ok::<_, MacroError>(s@),
            Err(e) => expand_spec(table@, text@) == Err::<Seq<char>, _>(e),
        },
{
    let t = chars_of(text);
    let mut out: Vec<char> = Vec::new();
    let mut i: usize = 0;
    assert(expand_spec(table@, t@) =~~= prefixed(out@, expand_from(t@, 0, table@)));
    loop
        invariant
            i <= t.len(),
            t@ == text@,
            table.wf(),
            expand_spec(table@, t@) == prefixed(out@, expand_from(t@, i as int, table@)),
        decreases t.len() - i,
    {
        proof {
            lemma_next_double(t@, i as int);
        }
        let ghost before = out@;
        let s = match find_double(&t, i) {
            Some(s) => s,
            None => {
                push_range(&mut out, &t, i, t.len());
                assert(expand_spec(table@, t@) =~~= Ok::<_, MacroError>(out@));
                return Ok(string_of(out));
            },
        };
        push_range(&mut out, &t, i, s);
        let h = match read_header(&t, s + 2) {
            Some(h) => h,
            None => return Err(MacroError::MalformedInvocation),
        };
        proof {
            lemma_read_items_bounds(t@, (s + 2) as int, Seq::empty());
        }
        let name = string_of(h.name);
        let def = match table.get(name.as_str()) {
            Some(d) => d,
            None => return Err(MacroError::UnknownMacro),
        };
        if h.items.len() != def.params.len() {
            return Err(MacroError::ArgumentCountMismatch);
        }
        let body = instantiate_chars(def, &h.items);
        push_range(&mut out, &body, 0, body.len());
        assert(body@.subrange(0, body@.len() as int) =~= body@);
        let ghost piece = t@.subrange(i as int, s as int) + body@;
        assert(out@ =~= before + piece);
        let ghost old_i = i as int;
        i = h.end;
        proof {
            assert(parse_header(t@, s + 2) == Some((name@, texts(h.items@), i as int)));
            assert(expand_from(t@, old_i, table@) == match expand_from(t@, i as int, table@) {
                Ok(rest) => Ok(piece + rest),
                Err(e) => Err::<Seq<char>, MacroError>(e),
            });
            match expand_from(t@, i as int, table@) {
                Ok(rest) => {
                    assert(before + (piece + rest) =~= out@ + rest);
                },
                Err(e) => {},
            }
        }
    }
}

} // verus!
