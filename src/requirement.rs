use vstd::prelude::*;
use crate::dependency::{sep, ConsolidateError};

verus! {

#[verifier::external_type_specification]
#[verifier::external_body]
pub struct ExSemverError(semver::Error);

/// What `semver::VersionReq::parse` makes of a text: `None` where it refuses
/// it, else the canonical text of each comparator, in the order written.
pub uninterp spec fn parsed_comparators(s: Seq<char>) -> Option<Seq<Seq<char>>>;

pub open spec fn texts(v: Seq<String>) -> Seq<Seq<char>> {
    v.map_values(|t: String| t@)
}

/// Relies on `semver::VersionReq::parse` for whether a text is a version
/// requirement and for its comparators, each written out by `Display` for
/// `semver::Comparator`, which prints every field of a comparator (so equal
/// texts mean equal comparators).
#[verifier::external_body]
fn parse_comparators(s: &str) -> (r: Result<Vec<String>, semver::Error>)
    ensures
        r is Ok <==> parsed_comparators(s@) is Some,
        r is Ok ==> texts(r->Ok_0@) == parsed_comparators(s@)->0,
{
    match semver::VersionReq::parse(s) {
        Ok(req) => Ok(req.comparators.iter().map(|c| c.to_string()).collect()),
        Err(e) => Err(e),
    }
}

/// The terms with every repeated one left out, first occurrences kept in order.
pub open spec fn dedup(ts: Seq<Seq<char>>) -> Seq<Seq<char>>
    decreases ts.len(),
{
    if ts.len() == 0 {
        seq![]
    } else {
        let p = dedup(ts.drop_last());
        if p.contains(ts.last()) {
            p
        } else {
            p.push(ts.last())
        }
    }
}

/// The terms joined by the separator.
pub open spec fn join_terms(ts: Seq<Seq<char>>) -> Seq<char>
    decreases ts.len(),
{
    if ts.len() == 0 {
        seq![]
    } else if ts.len() == 1 {
        ts[0]
    } else {
        join_terms(ts.drop_last()) + sep() + ts.last()
    }
}

/// How a version requirement with these comparators is written: `*` where
/// it has none.
pub open spec fn render(ts: Seq<Seq<char>>) -> Seq<char> {
    if ts.len() == 0 {
        seq!['*']
    } else {
        join_terms(ts)
    }
}

/// The simplified form of a requirement: its comparators without repeats,
/// written out again; `None` where it does not parse.
pub open spec fn simplified(s: Seq<char>) -> Option<Seq<char>> {
    match parsed_comparators(s) {
        Some(ts) => Some(render(dedup(ts))),
        None => None,
    }
}

proof fn lemma_dedup(ts: Seq<Seq<char>>)
    ensures
        dedup(ts).no_duplicates(),
        dedup(ts).to_set() == ts.to_set(),
    decreases ts.len(),
{
    if ts.len() > 0 {
        let p = dedup(ts.drop_last());
        lemma_dedup(ts.drop_last());
        assert(ts =~= ts.drop_last().push(ts.last()));
        ts.drop_last().lemma_push_to_set_commute(ts.last());
        if !p.contains(ts.last()) {
            p.lemma_push_to_set_commute(ts.last());
            assert forall|i: int, j: int|
                0 <= i < p.len() + 1 && 0 <= j < p.len() + 1 && i != j implies p.push(ts.last())[i]
                != p.push(ts.last())[j] by {
                if i == p.len() as int {
                    assert(p.contains(p[j]));
                } else if j == p.len() as int {
                    assert(p.contains(p[i]));
                }
            }
        } else {
            assert(p.to_set().contains(ts.last()));
            assert(p.to_set().insert(ts.last()) =~= p.to_set());
        }
    }
}

/// Simplifying a requirement keeps each distinct comparator exactly once:
/// the simplified requirement has as many comparators as the input has
/// distinct ones, and the same set of them.
pub proof fn law_simplify_distinct(s: Seq<char>)
    requires
        parsed_comparators(s) is Some,
    ensures
        ({
            let ts = parsed_comparators(s)->0;
            let d = dedup(ts);
            &&& simplified(s) == Some(render(d))
            &&& d.no_duplicates()
            &&& d.to_set() == ts.to_set()
            &&& d.len() == ts.to_set().len()
        }),
{
    let ts = parsed_comparators(s)->0;
    lemma_dedup(ts);
    dedup(ts).unique_seq_to_set();
}

pub fn contains_text(v: &Vec<String>, t: &String) -> (r: bool)
    ensures
        r == texts(v@).contains(t@),
{
    let mut i: usize = 0;
    while i < v.len()
        invariant
            i <= v.len(),
            forall|j: int| 0 <= j < i ==> v@[j]@ != t@,
        decreases v.len() - i,
    {
        if v[i] == *t {
            assert(texts(v@)[i as int] == t@);
            return true;
        }
        i += 1;
    }
    proof {
        if texts(v@).contains(t@) {
            let j = choose|j: int| 0 <= j < texts(v@).len() && texts(v@)[j] == t@;
            assert(v@[j]@ == t@);
        }
    }
    false
}

/// Leaves out every repeated comparator text, keeping first occurrences in order.
pub fn dedup_terms(ts: Vec<String>) -> (r: Vec<String>)
    ensures
        texts(r@) == dedup(texts(ts@)),
{
    let mut out: Vec<String> = Vec::new();
    let mut i: usize = 0;
    while i < ts.len()
        invariant
            i <= ts.len(),
            texts(out@) == dedup(texts(ts@).take(i as int)),
        decreases ts.len() - i,
    {
        let t = ts[i].clone();
        proof {
            assert(texts(ts@).take(i as int + 1).drop_last() =~= texts(ts@).take(i as int));
        }
        if !contains_text(&out, &t) {
            out.push(t);
            assert(texts(out@) =~= dedup(texts(ts@).take(i as int)).push(t@));
        }
        i += 1;
    }
    assert(texts(ts@).take(ts.len() as int) =~= texts(ts@));
    out
}

/// Writes out a version requirement with these comparators.
pub fn render_terms(ts: &Vec<String>) -> (r: String)
    ensures
        r@ == render(texts(ts@)),
{
    if ts.len() == 0 {
        let star = "*";
        proof {
            reveal_strlit("*");
            assert(star@ =~= seq!['*']);
        }
        return String::from_str(star);
    }
    let mut out = ts[0].clone();
    let mut i: usize = 1;
    let sp = ", ";
    proof {
        reveal_strlit(", ");
        assert(sp@ =~= sep());
        assert(texts(ts@).take(1).drop_last().len() == 0);
    }
    while i < ts.len()
        invariant
            1 <= i <= ts.len(),
            sp@ == sep(),
            out@ == join_terms(texts(ts@).take(i as int)),
        decreases ts.len() - i,
    {
        out.append(sp);
        out.append(ts[i].as_str());
        proof {
            assert(texts(ts@).take(i as int + 1).drop_last() =~= texts(ts@).take(i as int));
        }
        i += 1;
    }
    assert(texts(ts@).take(ts.len() as int) =~= texts(ts@));
    out
}

/// Parses a requirement and writes it out again without repeated comparators.
pub fn simplify_requirement(s: &str) -> (r: Result<String, ConsolidateError>)
    ensures
        match simplified(s@) {
            Some(t) => r is Ok && r->Ok_0@ == t,
            None => r == Err::<String, _>(ConsolidateError::InvalidVersionReq),
        },
{
    match parse_comparators(s) {
        Ok(ts) => {
            let d = dedup_terms(ts);
            Ok(render_terms(&d))
        },
        Err(_) => Err(ConsolidateError::InvalidVersionReq),
    }
}

} // verus!
