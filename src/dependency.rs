use vstd::prelude::*;
use crate::requirement::{simplified, simplify_requirement};

verus! {

/// The error that ends a consolidation run.
#[derive(Debug, PartialEq, Eq, Structural)]
pub enum ConsolidateError {
    /// A merge met a dependency marked `workspace = true` whose shared
    /// declaration does not exist.
    InheritedDependency,
    /// A version requirement does not parse.
    InvalidVersionReq,
    /// A member manifest holds a dependency entry that is neither a string
    /// nor a table.
    UnsupportedEntry,
}

/// The detailed form of a dependency: its version requirement, which the
/// merge rules read and write, and every other attribute, carried through.
#[derive(Debug)]
pub struct Detail {
    pub version: Option<String>,
    /// The remaining attributes (features, registry, optional, ...). Its own
    /// `version` field is not read: `Detail::version` is the one that counts.
    pub attrs: cargo_toml::DependencyDetail,
}

/// One reference to an outside package, as a manifest declares it.
#[derive(Debug)]
pub enum DepSpec {
    /// A bare version requirement: `name = "1.0"`.
    Simple(String),
    /// A table: `name = { version = "1.0", features = ["x"] }`.
    Detailed(Detail),
    /// `name = { workspace = true }`: the shared declaration is used.
    Inherited,
}

#[verifier::external_type_specification]
#[verifier::external_body]
pub struct ExDependencyDetail(cargo_toml::DependencyDetail);

/// The mathematical value of a `DepSpec`.
pub enum SpecModel {
    Simple(Seq<char>),
    Detailed(Option<Seq<char>>, cargo_toml::DependencyDetail),
    Inherited,
}

pub open spec fn opt_view(o: Option<String>) -> Option<Seq<char>> {
    match o {
        Some(s) => Some(s@),
        None => None,
    }
}

impl View for DepSpec {
    type V = SpecModel;

    open spec fn view(&self) -> SpecModel {
        match self {
            DepSpec::Simple(v) => SpecModel::Simple(v@),
            DepSpec::Detailed(d) => SpecModel::Detailed(opt_view(d.version), d.attrs),
            DepSpec::Inherited => SpecModel::Inherited,
        }
    }
}

/// The separator placed between two joined version requirements.
pub open spec fn sep() -> Seq<char> {
    seq![',', ' ']
}

/// Two requirements joined, the first one kept first.
pub open spec fn joined(a: Seq<char>, b: Seq<char>) -> Seq<char> {
    a + sep() + b
}

/// The version requirement that a specification carries, if any.
pub open spec fn version_of(m: SpecModel) -> Option<Seq<char>> {
    match m {
        SpecModel::Simple(v) => Some(v),
        SpecModel::Detailed(v, _) => v,
        SpecModel::Inherited => None,
    }
}

/// A bare requirement merged into `m`; `None` where `m` is inherited.
pub open spec fn merge_simple_spec(m: SpecModel, v: Seq<char>) -> Option<SpecModel> {
    match m {
        SpecModel::Simple(w) => Some(SpecModel::Simple(joined(w, v))),
        SpecModel::Detailed(Some(w), a) => Some(SpecModel::Detailed(Some(joined(w, v)), a)),
        SpecModel::Detailed(None, a) => Some(SpecModel::Detailed(None, a)),
        SpecModel::Inherited => None,
    }
}

/// A detailed specification merged into `m`; `None` where `m` is inherited.
pub open spec fn merge_detailed_spec(
    m: SpecModel,
    v: Option<Seq<char>>,
    attrs: cargo_toml::DependencyDetail,
) -> Option<SpecModel> {
    match m {
        SpecModel::Simple(w) => match v {
            Some(x) => Some(SpecModel::Detailed(Some(joined(w, x)), attrs)),
            None => Some(SpecModel::Detailed(Some(w), attrs)),
        },
        SpecModel::Detailed(w, a) => match (w, v) {
            (Some(y), Some(x)) => Some(SpecModel::Detailed(Some(joined(y, x)), a)),
            (None, x) => Some(SpecModel::Detailed(x, a)),
            (Some(y), None) => Some(SpecModel::Detailed(Some(y), a)),
        },
        SpecModel::Inherited => None,
    }
}

/// Any specification merged into `m`; `None` where either one is inherited.
pub open spec fn merge_spec(m: SpecModel, other: SpecModel) -> Option<SpecModel> {
    match other {
        SpecModel::Simple(v) => merge_simple_spec(m, v),
        SpecModel::Detailed(v, a) => merge_detailed_spec(m, v, a),
        SpecModel::Inherited => None,
    }
}

/// The specification with its requirement simplified; `None` where it is
/// inherited or its requirement does not parse.
pub open spec fn simplify_spec(m: SpecModel) -> Option<SpecModel> {
    match m {
        SpecModel::Simple(v) => match simplified(v) {
            Some(t) => Some(SpecModel::Simple(t)),
            None => None,
        },
        SpecModel::Detailed(Some(v), a) => match simplified(v) {
            Some(t) => Some(SpecModel::Detailed(Some(t), a)),
            None => None,
        },
        SpecModel::Detailed(None, a) => Some(m),
        SpecModel::Inherited => None,
    }
}

/// The error that simplifying `m` ends in, where it fails.
pub open spec fn simplify_error(m: SpecModel) -> ConsolidateError {
    if m is Inherited {
        ConsolidateError::InheritedDependency
    } else {
        ConsolidateError::InvalidVersionReq
    }
}

fn append_joined(s: &mut String, v: &str)
    ensures
        final(s)@ == joined(old(s)@, v@),
{
    let sp = ", ";
    proof {
        reveal_strlit(", ");
        assert(sp@ =~= sep());
    }
    s.append(sp);
    s.append(v);
}

impl DepSpec {
    /// Merges a bare version requirement into this specification: the
    /// requirement is appended after the existing one. A detailed
    /// specification without a version stays as it is.
    pub fn merge_simple(&mut self, version: &str) -> (r: Result<(), ConsolidateError>)
        ensures
            match merge_simple_spec(old(self)@, version@) {
                Some(m) => r is Ok && final(self)@ == m,
                None => r == Err::<(), _>(ConsolidateError::InheritedDependency)
                    && final(self)@ == old(self)@,
            },
    {
        match self {
            DepSpec::Simple(v) => {
                append_joined(v, version);
                Ok(())
            },
            DepSpec::Detailed(d) => {
                match &mut d.version {
                    Some(v) => append_joined(v, version),
                    None => {},
                }
                Ok(())
            },
            DepSpec::Inherited => Err(ConsolidateError::InheritedDependency),
        }
    }

    /// Merges a detailed specification into this one. A bare requirement
    /// becomes detailed, keeps its requirement first and takes the incoming
    /// attributes; a detailed one keeps its own attributes and joins the
    /// requirements, or adopts the incoming one where it had none.
    pub fn merge_detailed(&mut self, detail: Detail) -> (r: Result<(), ConsolidateError>)
        ensures
            match merge_detailed_spec(old(self)@, opt_view(detail.version), detail.attrs) {
                Some(m) => r is Ok && final(self)@ == m,
                None => r == Err::<(), _>(ConsolidateError::InheritedDependency)
                    && final(self)@ == old(self)@,
            },
    {
        match self {
            DepSpec::Simple(v) => {
                let mut w = v.clone();
                match detail.version {
                    Some(x) => append_joined(&mut w, x.as_str()),
                    None => {},
                }
                *self = DepSpec::Detailed(Detail { version: Some(w), attrs: detail.attrs });
                Ok(())
            },
            DepSpec::Detailed(d) => {
                match detail.version {
                    Some(x) => match &mut d.version {
                        Some(y) => append_joined(y, x.as_str()),
                        None => {
                            d.version = Some(x);
                        },
                    },
                    None => {},
                }
                Ok(())
            },
            DepSpec::Inherited => Err(ConsolidateError::InheritedDependency),
        }
    }

    /// Merges another specification into this one, by the rule for its form.
    /// It fails, and leaves `self` unchanged, when either one is inherited.
    pub fn merge(&mut self, other: DepSpec) -> (r: Result<(), ConsolidateError>)
        ensures
            match merge_spec(old(self)@, other@) {
                Some(m) => r is Ok && final(self)@ == m,
                None => r == Err::<(), _>(ConsolidateError::InheritedDependency)
                    && final(self)@ == old(self)@,
            },
            r is Err <==> (old(self)@ is Inherited || other@ is Inherited),
    {
        match other {
            DepSpec::Simple(v) => self.merge_simple(v.as_str()),
            DepSpec::Detailed(d) => self.merge_detailed(d),
            DepSpec::Inherited => Err(ConsolidateError::InheritedDependency),
        }
    }

    /// Rewrites the version requirement with every repeated comparator left
    /// out. A detailed specification without a version stays as it is.
    pub fn simplify(&mut self) -> (r: Result<(), ConsolidateError>)
        ensures
            match simplify_spec(old(self)@) {
                Some(m) => r is Ok && final(self)@ == m,
                None => r == Err::<(), _>(simplify_error(old(self)@)),
            },
    {
        match self {
            DepSpec::Simple(v) => {
                let t = simplify_requirement(v.as_str())?;
                *v = t;
                Ok(())
            },
            DepSpec::Detailed(d) => {
                match &mut d.version {
                    Some(v) => {
                        let t = simplify_requirement(v.as_str())?;
                        *v = t;
                    },
                    None => {},
                }
                Ok(())
            },
            DepSpec::Inherited => Err(ConsolidateError::InheritedDependency),
        }
    }
}

} // verus!
