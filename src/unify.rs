use vstd::prelude::*;
use crate::dependency::{merge_spec, simplify_error, simplify_spec, ConsolidateError, DepSpec, SpecModel};
use crate::requirement::{contains_text, join_terms, texts};

verus! {

pub open spec fn models(v: Seq<DepSpec>) -> Seq<SpecModel> {
    v.map_values(|d: DepSpec| d@)
}

/// The specifications merged from left to right: the first one is the seed.
/// `None` where the list is empty or a merge fails.
pub open spec fn fold_merge(ms: Seq<SpecModel>) -> Option<SpecModel>
    decreases ms.len(),
{
    if ms.len() == 0 {
        None
    } else if ms.len() == 1 {
        Some(ms[0])
    } else {
        match fold_merge(ms.drop_last()) {
            Some(acc) => merge_spec(acc, ms.last()),
            None => None,
        }
    }
}

/// All declarations of one package merged into one, then simplified.
pub open spec fn unified_spec(ms: Seq<SpecModel>) -> Option<SpecModel> {
    match fold_merge(ms) {
        Some(m) => simplify_spec(m),
        None => None,
    }
}

/// The error that unifying `ms` ends in, where it fails.
pub open spec fn unify_error(ms: Seq<SpecModel>) -> ConsolidateError {
    match fold_merge(ms) {
        Some(m) => simplify_error(m),
        None => ConsolidateError::InheritedDependency,
    }
}

/// Merges all declarations of one package, the first as the seed and the
/// others in order, and simplifies the result.
pub fn unify_group(deps: Vec<DepSpec>) -> (r: Result<DepSpec, ConsolidateError>)
    requires
        deps.len() > 0,
    ensures
        match unified_spec(models(deps@)) {
            Some(m) => r is Ok && r->Ok_0@ == m,
            None => r == Err::<DepSpec, _>(unify_error(models(deps@))),
        },
{
    let ghost all = models(deps@);
    let mut rest = deps;
    let ghost before = rest@;
    let mut acc = rest.remove(0);
    proof {
        assert(models(rest@) =~= models(before).skip(1));
        assert(all.skip(1) =~= models(before).skip(1));
    }
    let ghost mut k: int = 1;
    proof {
        assert(all.take(1).len() == 1);
    }
    while rest.len() > 0
        invariant
            1 <= k <= all.len(),
            all == models(deps@),
            rest.len() == all.len() - k,
            models(rest@) == all.skip(k),
            fold_merge(all.take(k)) == Some(acc@),
        decreases rest.len(),
    {
        let ghost before = rest@;
        let d = rest.remove(0);
        proof {
            assert(models(before)[0] == d@);
            assert(all.skip(k)[0] == d@);
            assert(all.skip(k + 1) =~= all.skip(k).skip(1));
            assert(models(rest@) =~= models(before).skip(1));
            assert(all.take(k + 1).drop_last() =~= all.take(k));
            assert(models(rest@) =~= all.skip(k + 1));
        }
        let ghost acc0 = acc@;
        let ghost dm = d@;
        match acc.merge(d) {
            Ok(()) => {},
            Err(e) => {
                proof {
                    assert(all.take(k + 1).last() == dm);
                    assert(fold_merge(all.take(k + 1)) == merge_spec(acc0, dm));
                    lemma_fold_fails(all, k + 1);
                }
                return Err(e);
            },
        }
        proof {
            assert(all.take(k + 1).last() == dm);
            k = k + 1;
        }
    }
    assert(all.take(k) =~= all);
    match acc.simplify() {
        Ok(()) => Ok(acc),
        Err(e) => Err(e),
    }
}

/// The name and declarations of each group, as values.
pub open spec fn groups_view(g: Seq<(String, Vec<DepSpec>)>) -> Seq<(Seq<char>, Seq<SpecModel>)> {
    g.map_values(|e: (String, Vec<DepSpec>)| (e.0@, models(e.1@)))
}

/// The name and unified specification of each entry, as values.
pub open spec fn table_view(t: Seq<(String, DepSpec)>) -> Seq<(Seq<char>, SpecModel)> {
    t.map_values(|e: (String, DepSpec)| (e.0@, e.1@))
}

/// Every group of declarations unifies.
pub open spec fn all_unify(g: Seq<(Seq<char>, Seq<SpecModel>)>) -> bool {
    forall|i: int| 0 <= i < g.len() ==> (#[trigger] unified_spec(g[i].1)) is Some
}

/// Group `k` is the first one that does not unify.
pub open spec fn first_failure(g: Seq<(Seq<char>, Seq<SpecModel>)>, k: int) -> bool {
    &&& 0 <= k < g.len()
    &&& unified_spec(g[k].1) is None
    &&& forall|j: int| 0 <= j < k ==> (#[trigger] unified_spec(g[j].1)) is Some
}

/// Unifies every package's declarations into one specification each, in the
/// order of the groups. It fails with the error of the first group that
/// does not unify.
pub fn unify_dependencies(groups: Vec<(String, Vec<DepSpec>)>) -> (r: Result<
    Vec<(String, DepSpec)>,
    ConsolidateError,
>)
    requires
        forall|i: int| 0 <= i < groups.len() ==> (#[trigger] groups@[i]).1.len() > 0,
    ensures
        r is Ok <==> all_unify(groups_view(groups@)),
        r is Ok ==> {
            let t = table_view(r->Ok_0@);
            let g = groups_view(groups@);
            &&& t.len() == g.len()
            &&& forall|i: int|
                0 <= i < t.len() ==> t[i].0 == g[i].0 && Some(t[i].1) == #[trigger] unified_spec(
                    g[i].1,
                )
        },
        r is Err ==> exists|k: int|
            #[trigger] first_failure(groups_view(groups@), k) && r->Err_0 == unify_error(
                groups_view(groups@)[k].1,
            ),
{
    let ghost g = groups_view(groups@);
    let ghost orig = groups@;
    let mut rest = groups;
    let mut out: Vec<(String, DepSpec)> = Vec::new();
    while rest.len() > 0
        invariant
            g == groups_view(groups@),
            orig == groups@,
            out.len() + rest.len() == g.len(),
            rest@ == orig.skip(out.len() as int),
            forall|i: int| 0 <= i < orig.len() ==> (#[trigger] orig[i]).1.len() > 0,
            forall|i: int|
                0 <= i < out.len() ==> (#[trigger] table_view(out@)[i]).0 == g[i].0 && Some(
                    table_view(out@)[i].1,
                ) == unified_spec(g[i].1),
        decreases rest.len(),
    {
        let ghost n = out.len() as int;
        let ghost before = rest@;
        let (name, deps) = rest.remove(0);
        proof {
            assert(before[0] == orig[n]);
            assert(rest@ =~= orig.skip(n + 1));
            assert(g[n] == (name@, models(deps@)));
        }
        match unify_group(deps) {
            Ok(d) => {
                let ghost old_out = out@;
                let ghost dm = d@;
                out.push((name, d));
                assert(table_view(out@) =~= table_view(old_out).push((g[n].0, dm)));
            },
            Err(e) => {
                proof {
                    assert forall|j: int| 0 <= j < n implies (#[trigger] unified_spec(
                        g[j].1,
                    )) is Some by {
                        assert(Some(table_view(out@)[j].1) == unified_spec(g[j].1));
                    }
                }
                assert(first_failure(g, n));
                return Err(e);
            },
        }
    }
    proof {
        assert forall|i: int| 0 <= i < g.len() implies (#[trigger] unified_spec(g[i].1)) is Some by {
            assert(Some(table_view(out@)[i].1) == unified_spec(g[i].1));
        }
    }
    Ok(out)
}

/// Where the group named `n` stands: the first group with that name, or -1.
pub open spec fn key_index(g: Seq<(Seq<char>, Seq<SpecModel>)>, n: Seq<char>) -> int
    decreases g.len(),
{
    if g.len() == 0 {
        -1
    } else {
        let k = key_index(g.drop_last(), n);
        if k >= 0 {
            k
        } else if g.last().0 == n {
            g.len() - 1
        } else {
            -1
        }
    }
}

/// The declarations grouped by package name, a name's group standing where
/// the name first occurs, each group in the order of declaration. Names that
/// `shared` already holds are left out.
pub open spec fn group_spec(shared: Seq<Seq<char>>, es: Seq<(Seq<char>, SpecModel)>) -> Seq<
    (Seq<char>, Seq<SpecModel>),
>
    decreases es.len(),
{
    if es.len() == 0 {
        seq![]
    } else {
        let g = group_spec(shared, es.drop_last());
        let e = es.last();
        if shared.contains(e.0) {
            g
        } else {
            let k = key_index(g, e.0);
            if k >= 0 {
                g.update(k, (e.0, g[k].1.push(e.1)))
            } else {
                g.push((e.0, seq![e.1]))
            }
        }
    }
}

proof fn lemma_key_index_range(g: Seq<(Seq<char>, Seq<SpecModel>)>, n: Seq<char>)
    ensures
        -1 <= key_index(g, n) < g.len(),
        key_index(g, n) >= 0 ==> g[key_index(g, n)].0 == n,
        key_index(g, n) == -1 ==> forall|i: int| 0 <= i < g.len() ==> (#[trigger] g[i]).0 != n,
    decreases g.len(),
{
    if g.len() > 0 {
        lemma_key_index_range(g.drop_last(), n);
        if key_index(g, n) == -1 {
            assert forall|i: int| 0 <= i < g.len() implies (#[trigger] g[i]).0 != n by {
                if i < g.len() - 1 {
                    assert(g[i] == g.drop_last()[i]);
                }
            }
        }
    }
}

/// The names of the groups.
pub open spec fn group_names(g: Seq<(Seq<char>, Seq<SpecModel>)>) -> Seq<Seq<char>> {
    g.map_values(|e: (Seq<char>, Seq<SpecModel>)| e.0)
}

/// Grouping yields each name once, never a name of the shared table, and
/// only names that some member declares.
pub proof fn law_grouped_names(shared: Seq<Seq<char>>, es: Seq<(Seq<char>, SpecModel)>)
    ensures
        group_names(group_spec(shared, es)).no_duplicates(),
        forall|i: int|
            0 <= i < group_spec(shared, es).len() ==> !shared.contains(
                (#[trigger] group_spec(shared, es)[i]).0,
            ) && exists|j: int| 0 <= j < es.len() && es[j].0 == group_spec(shared, es)[i].0,
    decreases es.len(),
{
    if es.len() > 0 {
        let p = es.drop_last();
        let g = group_spec(shared, p);
        let e = es.last();
        law_grouped_names(shared, p);
        lemma_key_index_range(g, e.0);
        let r = group_spec(shared, es);
        assert forall|i: int| 0 <= i < r.len() implies !shared.contains((#[trigger] r[i]).0)
            && exists|j: int| 0 <= j < es.len() && es[j].0 == r[i].0 by {
            if i < g.len() {
                assert(r[i].0 == g[i].0);
                let j = choose|j: int| 0 <= j < p.len() && p[j].0 == g[i].0;
                assert(es[j] == p[j]);
            } else {
                assert(es[es.len() - 1] == e);
            }
        }
        if !shared.contains(e.0) && key_index(g, e.0) < 0 {
            assert(group_names(r) =~= group_names(g).push(e.0));
            assert forall|a: int, b: int|
                0 <= a < group_names(r).len() && 0 <= b < group_names(r).len() && a != b implies group_names(r)[a]
                != group_names(r)[b] by {
                if a == g.len() as int {
                    assert(g[b].0 != e.0);
                } else if b == g.len() as int {
                    assert(g[a].0 != e.0);
                }
            }
        } else {
            assert(group_names(r) =~= group_names(g));
        }
    }
}

proof fn lemma_key_index_prefix(g: Seq<(Seq<char>, Seq<SpecModel>)>, n: Seq<char>, j: int)
    requires
        0 <= j <= g.len(),
        key_index(g.take(j), n) >= 0,
    ensures
        key_index(g, n) == key_index(g.take(j), n),
    decreases g.len() - j,
{
    if j < g.len() {
        assert(g.take(j + 1).drop_last() =~= g.take(j));
        lemma_key_index_prefix(g, n, j + 1);
    } else {
        assert(g.take(j) =~= g);
    }
}

fn find_group(groups: &Vec<(String, Vec<DepSpec>)>, name: &String) -> (r: Option<usize>)
    ensures
        match r {
            Some(k) => k as int == key_index(groups_view(groups@), name@),
            None => key_index(groups_view(groups@), name@) == -1,
        },
{
    let ghost g = groups_view(groups@);
    let mut i: usize = 0;
    while i < groups.len()
        invariant
            i <= groups.len(),
            g == groups_view(groups@),
            key_index(g.take(i as int), name@) == -1,
        decreases groups.len() - i,
    {
        proof {
            assert(g.take(i as int + 1).drop_last() =~= g.take(i as int));
        }
        if groups[i].0 == *name {
            proof {
                lemma_key_index_prefix(g, name@, i as int + 1);
            }
            return Some(i);
        }
        i += 1;
    }
    assert(g.take(i as int) =~= g);
    None
}

/// Groups the declarations of all members by package name, leaving out the
/// names that the shared table already declares.
pub fn group_new_dependencies(shared: &Vec<String>, declared: Vec<(String, DepSpec)>) -> (r: Vec<
    (String, Vec<DepSpec>),
>)
    ensures
        groups_view(r@) == group_spec(texts(shared@), table_view(declared@)),
        forall|i: int| 0 <= i < r.len() ==> (#[trigger] r@[i]).1.len() > 0,
{
    let ghost es = table_view(declared@);
    let ghost sh = texts(shared@);
    let mut rest = declared;
    let mut groups: Vec<(String, Vec<DepSpec>)> = Vec::new();
    let ghost mut done: int = 0;
    while rest.len() > 0
        invariant
            es == table_view(declared@),
            sh == texts(shared@),
            0 <= done <= es.len(),
            rest.len() == es.len() - done,
            table_view(rest@) == es.skip(done),
            groups_view(groups@) == group_spec(sh, es.take(done)),
            forall|i: int| 0 <= i < groups.len() ==> (#[trigger] groups@[i]).1.len() > 0,
        decreases rest.len(),
    {
        let ghost before = rest@;
        let (name, dep) = rest.remove(0);
        let ghost gv = groups_view(groups@);
        proof {
            assert(table_view(before)[0] == (name@, dep@));
            assert(es.skip(done)[0] == (name@, dep@));
            assert(table_view(rest@) =~= table_view(before).skip(1));
            assert(es.skip(done + 1) =~= es.skip(done).skip(1));
            assert(es.take(done + 1).drop_last() =~= es.take(done));
            assert(es.take(done + 1).last() == (name@, dep@));
            lemma_key_index_range(gv, name@);
        }
        if !contains_text(shared, &name) {
            match find_group(&groups, &name) {
                Some(k) => {
                    let ghost dm = dep@;
                    let ghost g0 = groups@;
                    let (n, mut v) = groups.remove(k);
                    let ghost v0 = v@;
                    v.push(dep);
                    proof {
                        assert(models(v@) =~= models(v0).push(dm));
                        assert(g0[k as int].0 == n && g0[k as int].1@ == v0);
                        assert(gv[k as int].0 == name@);
                    }
                    groups.insert(k, (n, v));
                    proof {
                        assert(groups@ =~= g0.update(k as int, groups@[k as int]));
                        assert(groups_view(groups@) =~= gv.update(
                            k as int,
                            (name@, gv[k as int].1.push(dm)),
                        ));
                    }
                },
                None => {
                    let ghost dm = dep@;
                    let mut v: Vec<DepSpec> = Vec::new();
                    v.push(dep);
                    groups.push((name, v));
                    proof {
                        assert(models(v@) =~= seq![dm]);
                        assert(groups_view(groups@) =~= gv.push((name@, seq![dm])));
                    }
                },
            }
        }
        proof {
            done = done + 1;
        }
    }
    assert(es.take(done) =~= es);
    groups
}

/// Unifies the dependencies that the members declare and the shared table
/// does not: the declarations are grouped by name, then each group is merged
/// and simplified into one specification.
pub fn consolidate_dependencies(shared: &Vec<String>, declared: Vec<(String, DepSpec)>) -> (r: Result<
    Vec<(String, DepSpec)>,
    ConsolidateError,
>)
    ensures
        ({
            let g = group_spec(texts(shared@), table_view(declared@));
            &&& r is Ok <==> all_unify(g)
            &&& r is Ok ==> {
                let t = table_view(r->Ok_0@);
                &&& t.len() == g.len()
                &&& forall|i: int|
                    0 <= i < t.len() ==> t[i].0 == g[i].0 && Some(t[i].1) == #[trigger] unified_spec(
                        g[i].1,
                    )
            }
            &&& r is Err ==> exists|k: int|
                #[trigger] first_failure(g, k) && r->Err_0 == unify_error(g[k].1)
        }),
{
    let groups = group_new_dependencies(shared, declared);
    unify_dependencies(groups)
}

/// A merge in which either specification is inherited fails.
pub proof fn law_inherited_merge_fails(a: SpecModel, b: SpecModel)
    requires
        a is Inherited || b is Inherited,
    ensures
        merge_spec(a, b) is None,
{
}

/// A merge that succeeds never yields an inherited specification.
proof fn lemma_merge_not_inherited(a: SpecModel, b: SpecModel)
    ensures
        merge_spec(a, b) is Some ==> !(merge_spec(a, b)->0 is Inherited),
{
}

proof fn lemma_fold_with_inherited(ms: Seq<SpecModel>, j: int)
    requires
        0 <= j < ms.len(),
        ms[j] is Inherited,
    ensures
        fold_merge(ms) is None || (ms.len() == 1 && fold_merge(ms) == Some(SpecModel::Inherited)),
    decreases ms.len(),
{
    if ms.len() > 1 {
        if j < ms.len() - 1 {
            lemma_fold_with_inherited(ms.drop_last(), j);
        }
        match fold_merge(ms.drop_last()) {
            Some(acc) => lemma_merge_not_inherited(acc, ms.last()),
            None => {},
        }
    }
}

/// Where any declaration of a package is inherited, unifying the package fails.
pub proof fn law_inherited_unify_fails(ms: Seq<SpecModel>, j: int)
    requires
        0 <= j < ms.len(),
        ms[j] is Inherited,
    ensures
        unified_spec(ms) is None,
{
    lemma_fold_with_inherited(ms, j);
}

/// The requirements of bare declarations.
pub open spec fn bare_requirements(ms: Seq<SpecModel>) -> Seq<Seq<char>> {
    ms.map_values(|m: SpecModel| m->Simple_0)
}

/// Bare declarations merge into one bare declaration whose requirement is
/// all of theirs joined, in the order of declaration: none is dropped.
pub proof fn law_fold_bare(ms: Seq<SpecModel>)
    requires
        ms.len() > 0,
        forall|i: int| 0 <= i < ms.len() ==> (#[trigger] ms[i]) is Simple,
    ensures
        fold_merge(ms) == Some(SpecModel::Simple(join_terms(bare_requirements(ms)))),
    decreases ms.len(),
{
    if ms.len() > 1 {
        law_fold_bare(ms.drop_last());
        assert(bare_requirements(ms).drop_last() =~= bare_requirements(ms.drop_last()));
    }
}

proof fn lemma_fold_fails(ms: Seq<SpecModel>, k: int)
    requires
        1 <= k <= ms.len(),
        fold_merge(ms.take(k)) is None,
    ensures
        fold_merge(ms) is None,
    decreases ms.len() - k,
{
    if k < ms.len() {
        assert(ms.take(k + 1).drop_last() =~= ms.take(k));
        lemma_fold_fails(ms, k + 1);
    } else {
        assert(ms.take(k) =~= ms);
    }
}

} // verus!
