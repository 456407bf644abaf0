//! Declarations as the front end hands them over, and the documentation
//! that each of them resolves to.

use vstd::prelude::*;
use crate::config::{
    parse_directives, parse_scope, resolve, resolved, Customisations, Directive,
};
use crate::error::AnalysisError;
use crate::text::{normalize, normalized};

verus! {

/// One attribute of a declaration.
#[derive(Clone, Debug, PartialEq, Eq)]
pub enum Attr {
    /// A documentation fragment whose payload is literal text.
    Doc(String),
    /// A documentation attribute whose payload is some other expression.
    DocExpr,
    /// A configuration annotation: its directives, in order.
    Config(Vec<Directive>),
    /// Any other attribute.
    Other,
}

/// A member of a container: a field (unnamed in a tuple struct) or a variant.
#[derive(Clone, Debug, PartialEq, Eq)]
pub struct MemberDecl {
    pub name: Option<String>,
    pub attrs: Vec<Attr>,
}

/// The documentation fragments of the attributes, in order; `None` when
/// one of them is not literal text.
pub open spec fn doc_fragments(attrs: Seq<Attr>) -> Option<Seq<Seq<char>>>
    decreases attrs.len(),
{
    if attrs.len() == 0 {
        Some(Seq::empty())
    } else {
        match doc_fragments(attrs.drop_last()) {
            None => None,
            Some(fs) => match attrs.last() {
                Attr::Doc(s) => Some(fs.push(s@)),
                Attr::DocExpr => None,
                _ => Some(fs),
            },
        }
    }
}

/// The configuration annotations among the attributes, in order.
pub open spec fn config_annotations(attrs: Seq<Attr>) -> Seq<Seq<Directive>>
    decreases attrs.len(),
{
    if attrs.len() == 0 {
        Seq::empty()
    } else {
        let prev = config_annotations(attrs.drop_last());
        match attrs.last() {
            Attr::Config(ds) => prev.push(ds@),
            _ => prev,
        }
    }
}

/// The normalized documentation that the attributes carry.
pub open spec fn docs_of(attrs: Seq<Attr>, trim: bool) -> Result<Option<Seq<char>>, AnalysisError> {
    match doc_fragments(attrs) {
        None => Err(AnalysisError::NotAStringLiteral),
        Some(fs) => Ok(normalized(fs, trim)),
    }
}

/// The documentation of a member under its container's customisations:
/// its own documentation, normalized under the resolved configuration. A
/// member without documentation takes the resolved default text when
/// `tagged` holds (an enum's variant), and stays without otherwise.
pub open spec fn member_doc(container: Customisations, attrs: Seq<Attr>, tagged: bool) -> Result<
    Option<Seq<char>>,
    AnalysisError,
> {
    match parse_scope(config_annotations(attrs)) {
        Err(e) => Err(e),
        Ok(m) => {
            let cfg = resolved(container, m);
            match docs_of(attrs, cfg.trim) {
                Err(e) => Err(e),
                Ok(d) => Ok(
                    if d is Some || !tagged {
                        d
                    } else {
                        cfg.default_text.deep_view()
                    },
                ),
            }
        },
    }
}

/// The customisations of the scope that the attributes belong to.
pub open spec fn scope_of(attrs: Seq<Attr>) -> Result<Customisations, AnalysisError> {
    parse_scope(config_annotations(attrs))
}

/// Collects the documentation fragments of the attributes.
pub fn collect_fragments(attrs: &Vec<Attr>) -> (r: Result<Vec<String>, AnalysisError>)
    ensures
        match r {
            Ok(fs) => doc_fragments(attrs@) == Some(fs.deep_view()),
            Err(e) => doc_fragments(attrs@) is None && e == AnalysisError::NotAStringLiteral,
        },
{
    let mut out: Vec<String> = Vec::new();
    let mut k: usize = 0;
    assert(attrs@.take(0) =~= Seq::<Attr>::empty());
    assert(out.deep_view() =~= Seq::<Seq<char>>::empty());
    while k < attrs.len()
        invariant
            k <= attrs.len(),
            doc_fragments(attrs@.take(k as int)) == Some(out.deep_view()),
        decreases attrs.len() - k,
    {
        assert(attrs@.take(k + 1).drop_last() =~= attrs@.take(k as int));
        match &attrs[k] {
            Attr::Doc(s) => {
                let ghost before = out.deep_view();
                out.push(s.clone());
                assert(out.deep_view() =~= before.push(s@));
            },
            Attr::DocExpr => {
                proof {
                    lemma_fragments_none_sticks(attrs@, k as int + 1);
                }
                return Err(AnalysisError::NotAStringLiteral);
            },
            _ => {},
        }
        k += 1;
    }
    assert(attrs@.take(k as int) =~= attrs@);
    Ok(out)
}

proof fn lemma_fragments_none_sticks(attrs: Seq<Attr>, k: int)
    requires
        0 <= k <= attrs.len(),
        doc_fragments(attrs.take(k)) is None,
    ensures
        doc_fragments(attrs) is None,
    decreases attrs.len() - k,
{
    if k < attrs.len() {
        assert(attrs.take(k + 1).drop_last() =~= attrs.take(k));
        lemma_fragments_none_sticks(attrs, k + 1);
    } else {
        assert(attrs.take(k) =~= attrs);
    }
}

proof fn lemma_scope_error_sticks(attrs: Seq<Attr>, k: int)
    requires
        0 <= k <= attrs.len(),
        scope_of(attrs.take(k)) is Err,
    ensures
        scope_of(attrs) == scope_of(attrs.take(k)),
    decreases attrs.len() - k,
{
    if k < attrs.len() {
        let t = attrs.take(k + 1);
        assert(t.drop_last() =~= attrs.take(k));
        match t.last() {
            Attr::Config(ds) => {
                assert(config_annotations(t).drop_last() =~= config_annotations(attrs.take(k)));
            },
            _ => {},
        }
        lemma_scope_error_sticks(attrs, k + 1);
    } else {
        assert(attrs.take(k) =~= attrs);
    }
}

/// The customisations that the attributes' configuration annotations set:
/// each annotation parsed on its own, later ones overriding earlier ones.
pub fn scope_customisations(attrs: &Vec<Attr>) -> (r: Result<Customisations, AnalysisError>)
    ensures
        r == scope_of(attrs@),
{
    let mut c = Customisations::new();
    let mut k: usize = 0;
    assert(attrs@.take(0) =~= Seq::<Attr>::empty());
    while k < attrs.len()
        invariant
            k <= attrs.len(),
            scope_of(attrs@.take(k as int)) == Ok::<Customisations, AnalysisError>(c),
        decreases attrs.len() - k,
    {
        let ghost t = attrs@.take(k + 1);
        assert(t.drop_last() =~= attrs@.take(k as int));
        match &attrs[k] {
            Attr::Config(ds) => {
                assert(config_annotations(t).drop_last() =~= config_annotations(
                    attrs@.take(k as int),
                ));
                match parse_directives(ds) {
                    Err(e) => {
                        proof {
                            lemma_scope_error_sticks(attrs@, k as int + 1);
                        }
                        return Err(e);
                    },
                    Ok(hi) => {
                        c = c.overlaid(&hi);
                    },
                }
            },
            _ => {},
        }
        k += 1;
    }
    assert(attrs@.take(k as int) =~= attrs@);
    Ok(c)
}

/// The normalized documentation that the attributes carry, under `trim`.
pub fn get_docs(attrs: &Vec<Attr>, trim: bool) -> (r: Result<Option<String>, AnalysisError>)
    ensures
        match r {
            Ok(d) => docs_of(attrs@, trim) == Ok::<Option<Seq<char>>, AnalysisError>(d.deep_view()),
            Err(e) => docs_of(attrs@, trim) == Err::<Option<Seq<char>>, AnalysisError>(e),
        },
{
    match collect_fragments(attrs) {
        Err(e) => Err(e),
        Ok(fs) => {
            Ok(normalize(&fs, trim))
        },
    }
}

/// The documentation of a member under its container's customisations
/// (see `member_doc`).
pub fn member_docs(container: &Customisations, attrs: &Vec<Attr>, tagged: bool) -> (r: Result<
    Option<String>,
    AnalysisError,
>)
    ensures
        match r {
            Ok(d) => member_doc(*container, attrs@, tagged) == Ok::<Option<Seq<char>>, AnalysisError>(
                d.deep_view(),
            ),
            Err(e) => member_doc(*container, attrs@, tagged) == Err::<Option<Seq<char>>, AnalysisError>(
                e,
            ),
        },
{
    let m = match scope_customisations(attrs) {
        Err(e) => return Err(e),
        Ok(m) => m,
    };
    let cfg = resolve(container, &m);
    match get_docs(attrs, cfg.trim) {
        Err(e) => Err(e),
        Ok(Some(d)) => Ok(Some(d)),
        Ok(None) => if tagged {
            Ok(cfg.default_text)
        } else {
            Ok(None)
        },
    }
}

/// A variant that a resolved default covers is never without documentation.
pub proof fn lemma_default_covers(container: Customisations, attrs: Seq<Attr>)
    requires
        scope_of(attrs) is Ok,
        container.default_text is Some || scope_of(attrs)->Ok_0.default_text is Some,
        doc_fragments(attrs) is Some,
    ensures
        member_doc(container, attrs, true) is Ok,
        member_doc(container, attrs, true)->Ok_0 is Some,
{
}

/// A field's documentation is its own: without documentation it stays
/// absent, whatever default its container or itself sets.
pub proof fn lemma_fields_ignore_default(container: Customisations, attrs: Seq<Attr>)
    requires
        member_doc(container, attrs, false) is Ok,
    ensures
        member_doc(container, attrs, false)->Ok_0 == normalized(
            doc_fragments(attrs)->0,
            resolved(container, scope_of(attrs)->Ok_0).trim,
        ),
{
}

} // verus!
