//! Configuration directives, their parsing, and the cascade
//! default < container < member.

use vstd::prelude::*;
use crate::error::{AnalysisError, ValueKind};

verus! {

/// The visibility given to a derived binding.
#[derive(Clone, Debug, PartialEq, Eq)]
pub enum Visibility {
    Inherited,
    Public,
    Crate,
    Restricted(String),
}

impl Visibility {
    /// A copy equal to `self`.
    pub fn duplicate(&self) -> (r: Visibility)
        ensures
            r == *self,
    {
        match self {
            Visibility::Inherited => Visibility::Inherited,
            Visibility::Public => Visibility::Public,
            Visibility::Crate => Visibility::Crate,
            Visibility::Restricted(p) => Visibility::Restricted(p.clone()),
        }
    }
}

/// The literal value of a directive.
#[derive(Clone, Debug, PartialEq, Eq)]
pub enum OptionValue {
    Bool(bool),
    Str(String),
    Vis(Visibility),
}

/// One `key = value` pair of a configuration annotation.
#[derive(Clone, Debug, PartialEq, Eq)]
pub struct Directive {
    pub key: String,
    pub value: OptionValue,
}

/// The recognized configuration keys.
#[derive(Clone, Copy, Debug, PartialEq, Eq, Structural)]
pub enum OptKey {
    Trim,
    Default,
    Name,
    Vis,
}

/// A partial configuration, as one scope supplies it: each field may be unset.
#[derive(Clone, Debug, PartialEq, Eq)]
pub struct Customisations {
    pub trim: Option<bool>,
    pub default_text: Option<String>,
    pub custom_name: Option<String>,
    pub vis: Option<Visibility>,
}

/// A resolved configuration.
#[derive(Clone, Debug, PartialEq, Eq)]
pub struct Config {
    pub trim: bool,
    pub default_text: Option<String>,
    pub custom_name: Option<String>,
    pub vis: Option<Visibility>,
}

pub open spec fn key_of(k: Seq<char>) -> Option<OptKey> {
    if k == "trim"@ {
        Some(OptKey::Trim)
    } else if k == "default"@ {
        Some(OptKey::Default)
    } else if k == "name"@ {
        Some(OptKey::Name)
    } else if k == "vis"@ {
        Some(OptKey::Vis)
    } else {
        None
    }
}

pub open spec fn expected_kind(k: OptKey) -> ValueKind {
    match k {
        OptKey::Trim => ValueKind::Bool,
        OptKey::Default => ValueKind::Str,
        OptKey::Name => ValueKind::Str,
        OptKey::Vis => ValueKind::Vis,
    }
}

pub open spec fn kind_of(v: OptionValue) -> ValueKind {
    match v {
        OptionValue::Bool(_) => ValueKind::Bool,
        OptionValue::Str(_) => ValueKind::Str,
        OptionValue::Vis(_) => ValueKind::Vis,
    }
}

pub open spec fn empty_customisations() -> Customisations {
    Customisations { trim: None, default_text: None, custom_name: None, vis: None }
}

pub open spec fn is_set(c: Customisations, k: OptKey) -> bool {
    match k {
        OptKey::Trim => c.trim is Some,
        OptKey::Default => c.default_text is Some,
        OptKey::Name => c.custom_name is Some,
        OptKey::Vis => c.vis is Some,
    }
}

/// `c` with the field of `k` set to `v`, whose kind is the expected one.
pub open spec fn set_value(c: Customisations, k: OptKey, v: OptionValue) -> Customisations {
    match v {
        OptionValue::Bool(b) => Customisations { trim: Some(b), ..c },
        OptionValue::Str(s) => if k == OptKey::Default {
            Customisations { default_text: Some(s), ..c }
        } else {
            Customisations { custom_name: Some(s), ..c }
        },
        OptionValue::Vis(x) => Customisations { vis: Some(x), ..c },
    }
}

/// One directive applied to what the annotation set so far.
pub open spec fn apply_directive(c: Customisations, d: Directive) -> Result<
    Customisations,
    AnalysisError,
> {
    match key_of(d.key@) {
        None => Err(AnalysisError::UnknownOption(d.key)),
        Some(k) => if kind_of(d.value) != expected_kind(k) {
            Err(AnalysisError::TypeMismatch(d.key, expected_kind(k), kind_of(d.value)))
        } else if is_set(c, k) {
            Err(AnalysisError::DuplicateOption(d.key))
        } else {
            Ok(set_value(c, k, d.value))
        },
    }
}

/// The customisations of one annotation: its directives applied in order;
/// the first faulty directive decides the error.
pub open spec fn parse_annotation(ds: Seq<Directive>) -> Result<Customisations, AnalysisError>
    decreases ds.len(),
{
    if ds.len() == 0 {
        Ok(empty_customisations())
    } else {
        match parse_annotation(ds.drop_last()) {
            Err(e) => Err(e),
            Ok(c) => apply_directive(c, ds.last()),
        }
    }
}

/// Per field, the value of `hi` where it is set, else that of `lo`.
pub open spec fn overlay(lo: Customisations, hi: Customisations) -> Customisations {
    Customisations {
        trim: if hi.trim is Some { hi.trim } else { lo.trim },
        default_text: if hi.default_text is Some { hi.default_text } else { lo.default_text },
        custom_name: if hi.custom_name is Some { hi.custom_name } else { lo.custom_name },
        vis: if hi.vis is Some { hi.vis } else { lo.vis },
    }
}

/// The customisations of one scope that carries several annotations: each
/// parsed on its own, later ones overriding earlier ones field by field.
pub open spec fn parse_scope(anns: Seq<Seq<Directive>>) -> Result<Customisations, AnalysisError>
    decreases anns.len(),
{
    if anns.len() == 0 {
        Ok(empty_customisations())
    } else {
        match parse_scope(anns.drop_last()) {
            Err(e) => Err(e),
            Ok(lo) => match parse_annotation(anns.last()) {
                Err(e) => Err(e),
                Ok(hi) => Ok(overlay(lo, hi)),
            },
        }
    }
}

/// The built-in default configuration.
pub open spec fn default_config() -> Config {
    Config { trim: true, default_text: None, custom_name: None, vis: None }
}

/// `base` with every field that `c` sets replaced by its value.
pub open spec fn merge(base: Config, c: Customisations) -> Config {
    Config {
        trim: match c.trim {
            Some(b) => b,
            None => base.trim,
        },
        default_text: if c.default_text is Some { c.default_text } else { base.default_text },
        custom_name: if c.custom_name is Some { c.custom_name } else { base.custom_name },
        vis: if c.vis is Some { c.vis } else { base.vis },
    }
}

/// The configuration of a member: default, then container, then member.
pub open spec fn resolved(container: Customisations, member: Customisations) -> Config {
    merge(merge(default_config(), container), member)
}

pub(crate) fn clone_text(o: &Option<String>) -> (r: Option<String>)
    ensures
        r == *o,
{
    match o {
        Some(s) => Some(s.clone()),
        None => None,
    }
}

fn clone_vis(o: &Option<Visibility>) -> (r: Option<Visibility>)
    ensures
        r == *o,
{
    match o {
        Some(v) => Some(v.duplicate()),
        None => None,
    }
}

fn key_is(key: &String, word: &str) -> (r: bool)
    ensures
        r == (key@ == word@),
{
    let w = String::from_str(word);
    *key == w
}

/// The recognized key that `key` names, if any.
pub fn lookup_key(key: &String) -> (r: Option<OptKey>)
    ensures
        r == key_of(key@),
{
    if key_is(key, "trim") {
        Some(OptKey::Trim)
    } else if key_is(key, "default") {
        Some(OptKey::Default)
    } else if key_is(key, "name") {
        Some(OptKey::Name)
    } else if key_is(key, "vis") {
        Some(OptKey::Vis)
    } else {
        None
    }
}

impl OptionValue {
    pub fn kind(&self) -> (r: ValueKind)
        ensures
            r == kind_of(*self),
    {
        match self {
            OptionValue::Bool(_) => ValueKind::Bool,
            OptionValue::Str(_) => ValueKind::Str,
            OptionValue::Vis(_) => ValueKind::Vis,
        }
    }
}

impl OptKey {
    pub fn expected(&self) -> (r: ValueKind)
        ensures
            r == expected_kind(*self),
    {
        match self {
            OptKey::Trim => ValueKind::Bool,
            OptKey::Default => ValueKind::Str,
            OptKey::Name => ValueKind::Str,
            OptKey::Vis => ValueKind::Vis,
        }
    }
}

impl Customisations {
    /// Customisations that set nothing.
    pub fn new() -> (r: Customisations)
        ensures
            r == empty_customisations(),
    {
        Customisations { trim: None, default_text: None, custom_name: None, vis: None }
    }

    /// A copy equal to `self`.
    pub fn duplicate(&self) -> (r: Customisations)
        ensures
            r == *self,
    {
        Customisations {
            trim: self.trim,
            default_text: clone_text(&self.default_text),
            custom_name: clone_text(&self.custom_name),
            vis: clone_vis(&self.vis),
        }
    }

    fn has(&self, k: OptKey) -> (r: bool)
        ensures
            r == is_set(*self, k),
    {
        match k {
            OptKey::Trim => self.trim.is_some(),
            OptKey::Default => self.default_text.is_some(),
            OptKey::Name => self.custom_name.is_some(),
            OptKey::Vis => self.vis.is_some(),
        }
    }

    /// Applies one directive (see `apply_directive`).
    pub fn apply(self, d: &Directive) -> (r: Result<Customisations, AnalysisError>)
        ensures
            r == apply_directive(self, *d),
    {
        match lookup_key(&d.key) {
            None => Err(AnalysisError::UnknownOption(d.key.clone())),
            Some(k) => {
                let found = d.value.kind();
                let expected = k.expected();
                if found != expected {
                    Err(AnalysisError::TypeMismatch(d.key.clone(), expected, found))
                } else if self.has(k) {
                    Err(AnalysisError::DuplicateOption(d.key.clone()))
                } else {
                    match &d.value {
                        OptionValue::Bool(b) => Ok(Customisations { trim: Some(*b), ..self }),
                        OptionValue::Str(t) => if k == OptKey::Default {
                            Ok(Customisations { default_text: Some(t.clone()), ..self })
                        } else {
                            Ok(Customisations { custom_name: Some(t.clone()), ..self })
                        },
                        OptionValue::Vis(x) => Ok(Customisations { vis: Some(x.duplicate()), ..self }),
                    }
                }
            },
        }
    }

    /// `self` overridden, field by field, by what `hi` sets.
    pub fn overlaid(self, hi: &Customisations) -> (r: Customisations)
        ensures
            r == overlay(self, *hi),
    {
        Customisations {
            trim: if hi.trim.is_some() { hi.trim } else { self.trim },
            default_text: if hi.default_text.is_some() {
                clone_text(&hi.default_text)
            } else {
                self.default_text
            },
            custom_name: if hi.custom_name.is_some() {
                clone_text(&hi.custom_name)
            } else {
                self.custom_name
            },
            vis: if hi.vis.is_some() { clone_vis(&hi.vis) } else { self.vis },
        }
    }
}

/// Parses one annotation's directives (see `parse_annotation`).
pub fn parse_directives(ds: &Vec<Directive>) -> (r: Result<Customisations, AnalysisError>)
    ensures
        r == parse_annotation(ds@),
{
    let mut c = Customisations::new();
    let mut k: usize = 0;
    assert(ds@.take(0) =~= Seq::<Directive>::empty());
    while k < ds.len()
        invariant
            k <= ds.len(),
            parse_annotation(ds@.take(k as int)) == Ok::<Customisations, AnalysisError>(c),
        decreases ds.len() - k,
    {
        assert(ds@.take(k + 1).drop_last() =~= ds@.take(k as int));
        match c.apply(&ds[k]) {
            Err(e) => {
                proof {
                    lemma_annotation_error_sticks(ds@, k as int + 1);
                }
                return Err(e);
            },
            Ok(next) => {
                c = next;
            },
        }
        k += 1;
    }
    assert(ds@.take(k as int) =~= ds@);
    Ok(c)
}

proof fn lemma_annotation_error_sticks(ds: Seq<Directive>, k: int)
    requires
        0 <= k <= ds.len(),
        parse_annotation(ds.take(k)) is Err,
    ensures
        parse_annotation(ds) == parse_annotation(ds.take(k)),
    decreases ds.len() - k,
{
    if k < ds.len() {
        assert(ds.take(k + 1).drop_last() =~= ds.take(k));
        lemma_annotation_error_sticks(ds, k + 1);
    } else {
        assert(ds.take(k) =~= ds);
    }
}

impl Config {
    /// The built-in default: trimming on, nothing else set.
    pub fn builtin() -> (r: Config)
        ensures
            r == default_config(),
    {
        Config { trim: true, default_text: None, custom_name: None, vis: None }
    }

    /// A copy equal to `self`.
    pub fn duplicate(&self) -> (r: Config)
        ensures
            r == *self,
    {
        Config {
            trim: self.trim,
            default_text: clone_text(&self.default_text),
            custom_name: clone_text(&self.custom_name),
            vis: clone_vis(&self.vis),
        }
    }

    /// `self` with every field that `c` sets replaced by its value.
    pub fn with_customisations(self, c: &Customisations) -> (r: Config)
        ensures
            r == merge(self, *c),
    {
        Config {
            trim: match c.trim {
                Some(b) => b,
                None => self.trim,
            },
            default_text: if c.default_text.is_some() {
                clone_text(&c.default_text)
            } else {
                self.default_text
            },
            custom_name: if c.custom_name.is_some() {
                clone_text(&c.custom_name)
            } else {
                self.custom_name
            },
            vis: if c.vis.is_some() { clone_vis(&c.vis) } else { self.vis },
        }
    }
}

/// The configuration of a member: the built-in default, overridden by the
/// container's customisations, overridden by the member's own.
pub fn resolve(container: &Customisations, member: &Customisations) -> (r: Config)
    ensures
        r == resolved(*container, *member),
{
    Config::builtin().with_customisations(container).with_customisations(member)
}

/// Scope precedence: a field that the member sets takes the member's value
/// whatever the container says; one that only the container sets takes the
/// container's value; one that neither sets keeps the built-in default.
pub proof fn lemma_scope_precedence(container: Customisations, member: Customisations)
    ensures
        member.trim is Some ==> resolved(container, member).trim == member.trim->0,
        member.trim is None && container.trim is Some ==> resolved(container, member).trim
            == container.trim->0,
        member.trim is None && container.trim is None ==> resolved(container, member).trim,
        member.default_text is Some ==> resolved(container, member).default_text
            == member.default_text,
        member.default_text is None ==> resolved(container, member).default_text
            == container.default_text,
        member.custom_name is Some ==> resolved(container, member).custom_name
            == member.custom_name,
        member.custom_name is None ==> resolved(container, member).custom_name
            == container.custom_name,
        member.vis is Some ==> resolved(container, member).vis == member.vis,
        member.vis is None ==> resolved(container, member).vis == container.vis,
{
}

} // verus!
