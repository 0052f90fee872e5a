//! Macro definitions and the table that maps each name to its definition.
use vstd::prelude::*;

verus! {

/// A named, parameterized text template: its parameters, whose order fixes
/// which argument of a call replaces which, and its body.
pub struct MacroDefinition {
    pub params: Vec<String>,
    pub body: String,
}

/// The abstract value of a definition: its parameters and its body.
pub type DefinitionView = (Seq<Seq<char>>, Seq<char>);

/// The texts held by a sequence of strings.
pub open spec fn strings_view(v: Seq<String>) -> Seq<Seq<char>> {
    v.map_values(|s: String| s@)
}

impl View for MacroDefinition {
    type V = DefinitionView;

    open spec fn view(&self) -> DefinitionView {
        (strings_view(self.params@), self.body@)
    }
}

impl MacroDefinition {
    /// A definition with the given parameters and body.
    pub fn new(params: Vec<String>, body: String) -> (r: MacroDefinition)
        ensures
            r.params == params,
            r.body == body,
    {
        MacroDefinition { params, body }
    }
}

/// The table that an entry list stands for: entries are read in order, and a
/// later entry for a name replaces an earlier one.
pub open spec fn map_of(es: Seq<(String, MacroDefinition)>) -> Map<Seq<char>, DefinitionView>
    decreases es.len(),
{
    if es.len() == 0 {
        Map::empty()
    } else {
        map_of(es.drop_last()).insert(es.last().0@, es.last().1@)
    }
}

/// No two entries share a name.
pub open spec fn names_unique(es: Seq<(String, MacroDefinition)>) -> bool {
    forall|i: int, j: int| 0 <= i < j < es.len() ==> es[i].0@ != es[j].0@
}

proof fn lemma_map_of_absent(es: Seq<(String, MacroDefinition)>, k: Seq<char>)
    requires
        forall|i: int| 0 <= i < es.len() ==> es[i].0@ != k,
    ensures
        !map_of(es).contains_key(k),
    decreases es.len(),
{
    if es.len() > 0 {
        lemma_map_of_absent(es.drop_last(), k);
    }
}

proof fn lemma_map_of_get(es: Seq<(String, MacroDefinition)>, i: int)
    requires
        names_unique(es),
        0 <= i < es.len(),
    ensures
        map_of(es).contains_key(es[i].0@),
        map_of(es)[es[i].0@] == es[i].1@,
    decreases es.len(),
{
    if i < es.len() - 1 {
        lemma_map_of_get(es.drop_last(), i);
    }
}

proof fn lemma_map_of_update(es: Seq<(String, MacroDefinition)>, i: int, e: (String, MacroDefinition))
    requires
        names_unique(es),
        0 <= i < es.len(),
        es[i].0@ == e.0@,
    ensures
        map_of(es.update(i, e)) == map_of(es).insert(e.0@, e.1@),
    decreases es.len(),
{
    let us = es.update(i, e);
    if i == es.len() - 1 {
        assert(us.drop_last() =~= es.drop_last());
        lemma_map_of_absent(es.drop_last(), e.0@);
        assert(map_of(us) =~= map_of(es).insert(e.0@, e.1@));
    } else {
        assert(us.drop_last() =~= es.drop_last().update(i, e));
        lemma_map_of_update(es.drop_last(), i, e);
        assert(map_of(us) =~= map_of(es).insert(e.0@, e.1@));
    }
}

proof fn lemma_map_of_len(es: Seq<(String, MacroDefinition)>)
    requires
        names_unique(es),
    ensures
        map_of(es).dom().finite(),
        map_of(es).dom().len() == es.len(),
    decreases es.len(),
{
    if es.len() > 0 {
        lemma_map_of_len(es.drop_last());
        lemma_map_of_absent(es.drop_last(), es.last().0@);
    }
}

/// The macros of one load, each under its name.
pub struct MacroTable {
    entries: Vec<(String, MacroDefinition)>,
}

impl View for MacroTable {
    type V = Map<Seq<char>, DefinitionView>;

    closed spec fn view(&self) -> Map<Seq<char>, DefinitionView> {
        map_of(self.entries@)
    }
}

impl MacroTable {
    /// Well-formed: no name is held twice.
    pub closed spec fn wf(&self) -> bool {
        names_unique(self.entries@)
    }

    /// The table with no macro.
    pub fn new() -> (r: MacroTable)
        ensures
            r.wf(),
            r@ == Map::<Seq<char>, DefinitionView>::empty(),
    {
        MacroTable { entries: Vec::new() }
    }

    /// Where the entry named `name` stands, if there is one.
    fn position(&self, name: &String) -> (r: Option<usize>)
        requires
            self.wf(),
        ensures
            match r {
                Some(i) => i < self.entries.len() && self.entries@[i as int].0@ == name@,
                None => forall|i: int|
                    0 <= i < self.entries.len() ==> self.entries@[i].0@ != name@,
            },
    {
        let mut i: usize = 0;
        while i < self.entries.len()
            invariant
                i <= self.entries.len(),
                forall|j: int| 0 <= j < i ==> self.entries@[j].0@ != name@,
            decreases self.entries.len() - i,
        {
            if self.entries[i].0 == *name {
                return Some(i);
            }
            i = i + 1;
        }
        None
    }

    /// Adds `def` under `name`, replacing any definition the name had.
    pub fn insert(&mut self, name: String, def: MacroDefinition)
        requires
            old(self).wf(),
        ensures
            final(self).wf(),
            final(self)@ == old(self)@.insert(name@, def@),
    {
        match self.position(&name) {
            Some(i) => {
                proof {
                    lemma_map_of_update(self.entries@, i as int, (name, def));
                }
                self.entries.set(i, (name, def));
            },
            None => {
                let ghost es = self.entries@;
                self.entries.push((name, def));
                assert(self.entries@.drop_last() =~= es);
            },
        }
    }

    /// The definition of `name`, if the table has one.
    pub fn get(&self, name: &str) -> (r: Option<&MacroDefinition>)
        requires
            self.wf(),
        ensures
            match r {
                Some(d) => self@.contains_key(name@) && self@[name@] == d@,
                None => !self@.contains_key(name@),
            },
    {
        let key = String::from_str(name);
        match self.position(&key) {
            Some(i) => {
                proof {
                    lemma_map_of_get(self.entries@, i as int);
                }
                Some(&self.entries[i].1)
            },
            None => {
                proof {
                    lemma_map_of_absent(self.entries@, name@);
                }
                None
            },
        }
    }

    /// The number of macros in the table.
    pub fn len(&self) -> (r: usize)
        requires
            self.wf(),
        ensures
            r == self@.len(),
    {
        proof {
            lemma_map_of_len(self.entries@);
        }
        self.entries.len()
    }
}

} // verus!
