use vstd::prelude::*;
use crate::dependency::{version_of, ConsolidateError, DepSpec, SpecModel};
use crate::unify::table_view;

verus! {

/// The shape of a dependency entry in a member manifest.
#[derive(Debug, Clone, Copy, PartialEq, Eq, Structural)]
pub enum EntryShape {
    /// `name = "1.0"`
    Text,
    /// `name = { ... }`; the flag tells whether it has a `version` field.
    Table(bool),
    /// Any other value.
    Other,
}

/// One edit of a member manifest's dependency entry.
#[derive(Debug, PartialEq, Eq)]
pub enum PatchAction {
    /// Replace the whole value by this requirement.
    SetValue(String),
    /// Replace only the `version` field by this requirement.
    SetVersion(String),
}

pub enum ActionModel {
    SetValue(Seq<char>),
    SetVersion(Seq<char>),
}

impl View for PatchAction {
    type V = ActionModel;

    open spec fn view(&self) -> ActionModel {
        match self {
            PatchAction::SetValue(s) => ActionModel::SetValue(s@),
            PatchAction::SetVersion(s) => ActionModel::SetVersion(s@),
        }
    }
}

/// The first specification that the table holds under `n`.
pub open spec fn lookup(t: Seq<(Seq<char>, SpecModel)>, n: Seq<char>) -> Option<SpecModel>
    decreases t.len(),
{
    if t.len() == 0 {
        None
    } else {
        match lookup(t.drop_last(), n) {
            Some(m) => Some(m),
            None => if t.last().0 == n {
                Some(t.last().1)
            } else {
                None
            },
        }
    }
}

/// The edit of one entry: `None` where it stays as it is, `Err` where its
/// shape cannot be edited.
pub open spec fn entry_action(shape: EntryShape, m: Option<SpecModel>) -> Result<
    Option<ActionModel>,
    (),
> {
    match m {
        None => Ok(None),
        Some(m) => match shape {
            EntryShape::Other => Err(()),
            EntryShape::Text => match version_of(m) {
                Some(c) => Ok(Some(ActionModel::SetValue(c))),
                None => Ok(None),
            },
            EntryShape::Table(true) => match version_of(m) {
                Some(c) => Ok(Some(ActionModel::SetVersion(c))),
                None => Ok(None),
            },
            EntryShape::Table(false) => Ok(None),
        },
    }
}

/// The edits of a member's dependency entries, in the entries' order; `None`
/// where an entry of a unified package has a shape that cannot be edited.
pub open spec fn plan_spec(
    entries: Seq<(Seq<char>, EntryShape)>,
    t: Seq<(Seq<char>, SpecModel)>,
) -> Option<Seq<(Seq<char>, ActionModel)>>
    decreases entries.len(),
{
    if entries.len() == 0 {
        Some(seq![])
    } else {
        match plan_spec(entries.drop_last(), t) {
            None => None,
            Some(p) => {
                let e = entries.last();
                match entry_action(e.1, lookup(t, e.0)) {
                    Err(()) => None,
                    Ok(None) => Some(p),
                    Ok(Some(a)) => Some(p.push((e.0, a))),
                }
            },
        }
    }
}

pub open spec fn entries_view(v: Seq<(String, EntryShape)>) -> Seq<(Seq<char>, EntryShape)> {
    v.map_values(|e: (String, EntryShape)| (e.0@, e.1))
}

pub open spec fn plan_view(v: Seq<(String, PatchAction)>) -> Seq<(Seq<char>, ActionModel)> {
    v.map_values(|e: (String, PatchAction)| (e.0@, e.1@))
}

proof fn lemma_lookup_prefix(t: Seq<(Seq<char>, SpecModel)>, n: Seq<char>, j: int)
    requires
        0 <= j <= t.len(),
        lookup(t.take(j), n) is Some,
    ensures
        lookup(t, n) == lookup(t.take(j), n),
    decreases t.len() - j,
{
    if j < t.len() {
        assert(t.take(j + 1).drop_last() =~= t.take(j));
        lemma_lookup_prefix(t, n, j + 1);
    } else {
        assert(t.take(j) =~= t);
    }
}

/// The unified requirement that the table holds for `name`: `None` where the
/// table has no such package, `Some(None)` where its specification carries
/// no requirement.
fn find_requirement(table: &Vec<(String, DepSpec)>, name: &String) -> (r: Option<Option<String>>)
    ensures
        match lookup(table_view(table@), name@) {
            None => r is None,
            Some(m) => r is Some && match (r->0, version_of(m)) {
                (Some(c), Some(v)) => c@ == v,
                (None, None) => true,
                _ => false,
            },
        },
{
    let ghost t = table_view(table@);
    let mut i: usize = 0;
    while i < table.len()
        invariant
            i <= table.len(),
            t == table_view(table@),
            lookup(t.take(i as int), name@) is None,
        decreases table.len() - i,
    {
        proof {
            assert(t.take(i as int + 1).drop_last() =~= t.take(i as int));
        }
        if table[i].0 == *name {
            proof {
                lemma_lookup_prefix(t, name@, i as int + 1);
            }
            let c = match &table[i].1 {
                DepSpec::Simple(v) => Some(v.clone()),
                DepSpec::Detailed(d) => match &d.version {
                    Some(v) => Some(v.clone()),
                    None => None,
                },
                DepSpec::Inherited => None,
            };
            return Some(c);
        }
        i += 1;
    }
    assert(t.take(i as int) =~= t);
    None
}

/// Decides how each dependency entry of a member manifest is rewritten so
/// that it names the unified requirement: a bare requirement is replaced
/// whole, a table has its `version` field replaced, a table without one is
/// left alone. An entry of a unified package that is neither a string nor a
/// table cannot be rewritten.
pub fn plan_member_patch(entries: &Vec<(String, EntryShape)>, table: &Vec<(String, DepSpec)>) -> (r:
    Result<Vec<(String, PatchAction)>, ConsolidateError>)
    ensures
        match plan_spec(entries_view(entries@), table_view(table@)) {
            Some(p) => r is Ok && plan_view(r->Ok_0@) == p,
            None => r == Err::<Vec<(String, PatchAction)>, _>(ConsolidateError::UnsupportedEntry),
        },
{
    let ghost es = entries_view(entries@);
    let mut out: Vec<(String, PatchAction)> = Vec::new();
    let mut i: usize = 0;
    while i < entries.len()
        invariant
            i <= entries.len(),
            es == entries_view(entries@),
            plan_spec(es.take(i as int), table_view(table@)) == Some(plan_view(out@)),
        decreases entries.len() - i,
    {
        proof {
            assert(es.take(i as int + 1).drop_last() =~= es.take(i as int));
            assert(es.take(i as int + 1).last() == es[i as int]);
        }
        let name = &entries[i].0;
        let shape = entries[i].1;
        let ghost old_out = out@;
        match find_requirement(table, name) {
            None => {},
            Some(c) => match shape {
                EntryShape::Other => {
                    proof {
                        lemma_plan_fails(es, table_view(table@), i as int + 1);
                    }
                    return Err(ConsolidateError::UnsupportedEntry);
                },
                EntryShape::Text => match c {
                    Some(v) => {
                        out.push((name.clone(), PatchAction::SetValue(v)));
                        assert(plan_view(out@) =~= plan_view(old_out).push(
                            (es[i as int].0, plan_view(out@).last().1),
                        ));
                    },
                    None => {},
                },
                EntryShape::Table(has_version) => match c {
                    Some(v) => {
                        if has_version {
                            out.push((name.clone(), PatchAction::SetVersion(v)));
                            assert(plan_view(out@) =~= plan_view(old_out).push(
                                (es[i as int].0, plan_view(out@).last().1),
                            ));
                        }
                    },
                    None => {},
                },
            },
        }
        i += 1;
    }
    assert(es.take(i as int) =~= es);
    Ok(out)
}

proof fn lemma_plan_fails(
    es: Seq<(Seq<char>, EntryShape)>,
    t: Seq<(Seq<char>, SpecModel)>,
    k: int,
)
    requires
        1 <= k <= es.len(),
        plan_spec(es.take(k), t) is None,
    ensures
        plan_spec(es, t) is None,
    decreases es.len() - k,
{
    if k < es.len() {
        assert(es.take(k + 1).drop_last() =~= es.take(k));
        lemma_plan_fails(es, t, k + 1);
    } else {
        assert(es.take(k) =~= es);
    }
}

} // verus!
