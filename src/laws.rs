//! Properties of loading and expanding, stated over the specifications that
//! `load_definitions` and `expand` meet.
use vstd::prelude::*;
use crate::error::MacroError;
use crate::expand::{expand_spec, expand_from, substitute};
use crate::loader::{load_spec, load_from};
use crate::scan::{parse_header, read_items};
use crate::table::DefinitionView;
use crate::text::{
    MARK,
    double_at,
    next_double,
    next_mark,
    trim,
    lemma_next_double,
    lemma_next_mark,
};

verus! {

/// A text in which no double mark occurs expands to itself, whatever the table.
pub proof fn lemma_expand_plain_text(tb: Map<Seq<char>, DefinitionView>, t: Seq<char>)
    requires
        forall|k: int| !#[trigger] double_at(t, k),
    ensures
        expand_spec(tb, t) == Ok::<_, MacroError>(t),
{
    lemma_next_double(t, 0);
    assert(t.subrange(0, t.len() as int) =~= t);
}

/// The text `"##" + name + "##"`: a call of `name` with no argument.
pub open spec fn call_text(name: Seq<char>) -> Seq<char> {
    seq![MARK, MARK] + name + seq![MARK, MARK]
}

/// A call of a macro with no argument, alone in its text: it fails where the
/// table lacks the name or the macro takes parameters, and otherwise expands
/// to the macro's body exactly as it stands, double marks and all; the body is
/// never scanned for invocations of its own.
pub proof fn lemma_single_call(tb: Map<Seq<char>, DefinitionView>, name: Seq<char>)
    requires
        forall|k: int| 0 <= k < name.len() ==> name[k] != MARK,
        trim(name) == name,
    ensures
        !tb.contains_key(name) ==> expand_spec(tb, call_text(name)) == Err::<Seq<char>, _>(
            MacroError::UnknownMacro,
        ),
        tb.contains_key(name) && tb[name].0.len() != 0 ==> expand_spec(tb, call_text(name))
            == Err::<Seq<char>, _>(MacroError::ArgumentCountMismatch),
        tb.contains_key(name) && tb[name].0.len() == 0 ==> expand_spec(tb, call_text(name))
            == Ok::<_, MacroError>(tb[name].1),
{
    let t = call_text(name);
    let n = name.len() as int;
    assert(t.len() == n + 4);
    assert forall|k: int| 2 <= k < n + 2 implies t[k] != MARK && !double_at(t, k) by {
        assert(t[k] == name[k - 2]);
    }
    assert(double_at(t, 0));
    assert(double_at(t, n + 2));
    lemma_next_mark(t, 2);
    lemma_next_double(t, 2);
    assert(next_mark(t, 2) == Some(n + 2));
    assert(next_double(t, 2) == Some(n + 2));
    assert(read_items(t, 2, Seq::empty()) == Some((Seq::<Seq<char>>::empty(), n + 4)));
    assert(t.subrange(2, n + 2) =~= name);
    assert(parse_header(t, 2) == Some((name, Seq::<Seq<char>>::empty(), n + 4)));
    assert(next_double(t, n + 4) is None);
    assert(expand_from(t, n + 4, tb) == Ok::<_, MacroError>(t.subrange(n + 4, n + 4)));
    if tb.contains_key(name) && tb[name].0.len() == 0 {
        let body = tb[name].1;
        assert(substitute(body, tb[name].0, Seq::empty()) == body);
        assert(t.subrange(0, 0) + body + t.subrange(n + 4, n + 4) =~= body);
    }
}

/// `body` followed by the double mark that closes it.
pub open spec fn closed(body: Seq<char>) -> Seq<char> {
    body + seq![MARK, MARK]
}

/// The text `"##" + name + "##" + body + "##"`: one definition without parameters.
pub open spec fn definition_text(name: Seq<char>, body: Seq<char>) -> Seq<char> {
    call_text(name) + closed(body)
}

/// Loading one definition without parameters and then calling it gives its
/// body, trimmed. The body holds no double mark of its own, and does not end
/// in a mark, which would join the closing double mark.
pub proof fn lemma_round_trip(name: Seq<char>, body: Seq<char>)
    requires
        forall|k: int| 0 <= k < name.len() ==> name[k] != MARK,
        trim(name) == name,
        forall|k: int| 0 <= k < body.len() ==> !#[trigger] double_at(closed(body), k),
    ensures
        load_spec(definition_text(name, body)) == Ok::<_, MacroError>(
            Map::<Seq<char>, DefinitionView>::empty().insert(name, (Seq::empty(), trim(body))),
        ),
        expand_spec(
            Map::<Seq<char>, DefinitionView>::empty().insert(name, (Seq::empty(), trim(body))),
            call_text(name),
        ) == Ok::<_, MacroError>(trim(body)),
{
    let t = definition_text(name, body);
    let tail = closed(body);
    let n = name.len() as int;
    let b = body.len() as int;
    assert(t.len() == n + b + 6);
    assert forall|k: int| 2 <= k < n + 2 implies t[k] != MARK && !double_at(t, k) by {
        assert(t[k] == name[k - 2]);
    }
    assert forall|k: int| n + 4 <= k < n + 4 + b implies !double_at(t, k) by {
        assert(t[k] == tail[k - n - 4]);
        assert(t[k + 1] == tail[k + 1 - n - 4]);
        assert(!double_at(tail, k - n - 4));
    }
    assert(double_at(t, 0));
    assert(double_at(t, n + 2));
    assert(double_at(t, n + b + 4));
    lemma_next_mark(t, 2);
    lemma_next_double(t, 2);
    lemma_next_double(t, n + 4);
    assert(next_double(t, 0) == Some(0int));
    assert(next_mark(t, 2) == Some(n + 2));
    assert(next_double(t, 2) == Some(n + 2));
    assert(read_items(t, 2, Seq::empty()) == Some((Seq::<Seq<char>>::empty(), n + 4)));
    assert(t.subrange(2, n + 2) =~= name);
    assert(parse_header(t, 2) == Some((name, Seq::<Seq<char>>::empty(), n + 4)));
    assert(next_double(t, n + 4) == Some(n + b + 4));
    assert(t.subrange(n + 4, n + b + 4) =~= body);
    assert(next_double(t, n + b + 6) is None);
    let tb = Map::<Seq<char>, DefinitionView>::empty().insert(name, (Seq::empty(), trim(body)));
    assert(load_from(t, n + b + 6, tb) == Ok::<_, MacroError>(tb));
    assert(load_from(t, 0, Map::empty()) == load_from(t, n + b + 6, tb));
    lemma_single_call(tb, name);
}

/// A text that opens with a double mark and holds no other double mark is a
/// definition, and an invocation, cut off before its end: loading it and
/// expanding it both fail.
pub proof fn lemma_unterminated(tb: Map<Seq<char>, DefinitionView>, t: Seq<char>)
    requires
        double_at(t, 0),
        forall|k: int| 1 <= k ==> !#[trigger] double_at(t, k),
    ensures
        load_spec(t) == Err::<Map<Seq<char>, DefinitionView>, _>(MacroError::MalformedDefinition),
        expand_spec(tb, t) == Err::<Seq<char>, _>(MacroError::MalformedInvocation),
{
    lemma_next_double(t, 2);
    assert(next_double(t, 2) is None);
    assert(read_items(t, 2, Seq::empty()) is None);
    assert(parse_header(t, 2) is None);
}

} // verus!
