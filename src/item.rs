//! Single declarations: their documentation, and the constant that a
//! declaration's documentation is bound to.

use vstd::prelude::*;
use convert_case::{Case, Casing};
use crate::config::{
    default_config, merge, parse_annotation, parse_directives, Config, Directive, Visibility,
};
use crate::decl::{docs_of, get_docs, scope_customisations, scope_of, Attr};
use crate::error::AnalysisError;

verus! {

/// What `to_case(Case::ScreamingSnake)` of convert_case makes of a name.
pub uninterp spec fn screaming_snake_of(s: Seq<char>) -> Seq<char>;

/// Relies on convert_case's `Casing::to_case` with `Case::ScreamingSnake`:
/// the words of `s`, upper-cased and joined by underscores, a function of
/// `s` alone.
#[verifier::external_body]
fn screaming_snake(s: &str) -> (r: String)
    ensures
        r@ == screaming_snake_of(s@),
{
    s.to_case(Case::ScreamingSnake)
}

/// The documentation of a declaration that must carry some.
pub open spec fn item_doc(attrs: Seq<Attr>) -> Result<Seq<char>, AnalysisError> {
    match scope_of(attrs) {
        Err(e) => Err(e),
        Ok(c) => match docs_of(attrs, merge(default_config(), c).trim) {
            Err(e) => Err(e),
            Ok(None) => Err(AnalysisError::MissingDocumentation),
            Ok(Some(d)) => Ok(d),
        },
    }
}

/// The documentation of a declaration, normalized under its own
/// configuration annotations; it is an error for it to have none.
pub fn documented(attrs: &Vec<Attr>) -> (r: Result<String, AnalysisError>)
    ensures
        match r {
            Ok(d) => item_doc(attrs@) == Ok::<Seq<char>, AnalysisError>(d@),
            Err(e) => item_doc(attrs@) == Err::<Seq<char>, AnalysisError>(e),
        },
{
    let c = match scope_customisations(attrs) {
        Err(e) => return Err(e),
        Ok(c) => c,
    };
    let cfg = Config::builtin().with_customisations(&c);
    match get_docs(attrs, cfg.trim) {
        Err(e) => Err(e),
        Ok(None) => Err(AnalysisError::MissingDocumentation),
        Ok(Some(d)) => Ok(d),
    }
}

/// Whether `unicode_ident::is_xid_start` accepts a character.
pub uninterp spec fn xid_start(c: char) -> bool;

/// Whether `unicode_ident::is_xid_continue` accepts a character.
pub uninterp spec fn xid_continue(c: char) -> bool;

/// Relies on unicode-ident's `is_xid_start`: Unicode's XID_Start property,
/// a function of the character alone.
pub assume_specification[ unicode_ident::is_xid_start ](ch: char) -> (r: bool)
    ensures
        r == xid_start(ch),
;

/// Relies on unicode-ident's `is_xid_continue`: Unicode's XID_Continue
/// property, a function of the character alone.
pub assume_specification[ unicode_ident::is_xid_continue ](ch: char) -> (r: bool)
    ensures
        r == xid_continue(ch),
;

/// A legal identifier, as proc-macro2's `Ident::new` takes it: not empty,
/// not made of digits alone, an underscore or an XID_Start character first,
/// XID_Continue characters after it.
pub open spec fn is_identifier(s: Seq<char>) -> bool {
    &&& s.len() > 0
    &&& !(forall|i: int| 0 <= i < s.len() ==> '0' <= #[trigger] s[i] && s[i] <= '9')
    &&& (s[0] == '_' || xid_start(s[0]))
    &&& forall|i: int| 1 <= i < s.len() ==> xid_continue(#[trigger] s[i])
}

/// Whether `s` is a legal identifier.
pub fn check_identifier(s: &str) -> (r: bool)
    ensures
        r == is_identifier(s@),
{
    let n = s.unicode_len();
    if n == 0 {
        return false;
    }
    let mut all_digits = true;
    let mut k: usize = 0;
    while k < n
        invariant
            k <= n,
            n == s@.len(),
            all_digits == forall|i: int| 0 <= i < k ==> '0' <= #[trigger] s@[i] && s@[i] <= '9',
        decreases n - k,
    {
        let c = s.get_char(k);
        if !('0' <= c && c <= '9') {
            all_digits = false;
        }
        k += 1;
    }
    if all_digits {
        return false;
    }
    let first = s.get_char(0);
    if !(first == '_' || unicode_ident::is_xid_start(first)) {
        return false;
    }
    let mut k: usize = 1;
    while k < n
        invariant
            1 <= k <= n,
            n == s@.len(),
            forall|i: int| 1 <= i < k ==> xid_continue(#[trigger] s@[i]),
        decreases n - k,
    {
        if !unicode_ident::is_xid_continue(s.get_char(k)) {
            return false;
        }
        k += 1;
    }
    true
}

/// The name of the binding: the custom name where one is set, else the
/// case-converted declaration name followed by `_DOCS`.
pub open spec fn binding_name(cased: Seq<char>, custom: Option<Seq<char>>) -> Seq<char> {
    match custom {
        Some(n) => n,
        None => cased + "_DOCS"@,
    }
}

/// The name of the binding from the case-converted declaration name and
/// the custom name, if any.
pub fn binding_name_from(cased: &str, custom: &Option<String>) -> (r: String)
    ensures
        r@ == binding_name(cased@, custom.deep_view()),
{
    match custom {
        Some(n) => n.clone(),
        None => {
            let mut r = String::from_str(cased);
            r.append("_DOCS");
            r
        },
    }
}

/// A constant that holds a declaration's documentation.
#[derive(Clone, Debug, PartialEq, Eq)]
pub struct DocsConst {
    pub vis: Visibility,
    pub name: String,
    pub docs: String,
}

/// The configuration of a documentation constant, from the directives
/// given to it.
pub open spec fn const_config(args: Seq<Directive>) -> Result<Config, AnalysisError> {
    match parse_annotation(args) {
        Err(e) => Err(e),
        Ok(c) => Ok(merge(default_config(), c)),
    }
}

/// `r` is the constant built from the case-converted declaration name
/// `cased`, the configuration `cfg`, the declaration's visibility and the
/// documentation `docs`: refused with the name when it is no identifier.
pub open spec fn const_answers(
    r: Result<DocsConst, AnalysisError>,
    cased: Seq<char>,
    cfg: Config,
    item_vis: Visibility,
    docs: Seq<char>,
) -> bool {
    let name = binding_name(cased, cfg.custom_name.deep_view());
    match r {
        Ok(k) => is_identifier(name) && k.docs@ == docs && k.name@ == name && k.vis == (match cfg.vis {
            Some(v) => v,
            None => item_vis,
        }),
        Err(e) => !is_identifier(name) && (e matches AnalysisError::UnknownOption(n) && n@ == name),
    }
}

/// The constant for a declaration whose name was already case-converted:
/// its name, checked to be an identifier, and its visibility.
pub fn const_from_parts(cased: &str, cfg: &Config, item_vis: &Visibility, docs: String) -> (r: Result<
    DocsConst,
    AnalysisError,
>)
    ensures
        const_answers(r, cased@, *cfg, *item_vis, docs@),
{
    let name = binding_name_from(cased, &cfg.custom_name);
    if !check_identifier(name.as_str()) {
        return Err(AnalysisError::UnknownOption(name));
    }
    let vis = match &cfg.vis {
        Some(v) => v.duplicate(),
        None => item_vis.duplicate(),
    };
    Ok(DocsConst { vis, name, docs })
}

/// The constant that binds a declaration's documentation: its visibility
/// is the configured one or else the declaration's, its name the configured
/// one or else the case-converted declaration name followed by `_DOCS`.
/// Directives, then documentation, then the name's legality are checked,
/// in that order.
pub fn docs_const(args: &Vec<Directive>, item_name: &str, item_vis: &Visibility, attrs: &Vec<Attr>) -> (r: Result<DocsConst, AnalysisError>)
    ensures
        const_config(args@) is Err ==> r == Err::<DocsConst, AnalysisError>(const_config(args@)->Err_0),
        const_config(args@) matches Ok(cfg) ==> match docs_of(attrs@, cfg.trim) {
            Err(e) => r == Err::<DocsConst, AnalysisError>(e),
            Ok(None) => r == Err::<DocsConst, AnalysisError>(AnalysisError::MissingDocumentation),
            Ok(Some(d)) => const_answers(r, screaming_snake_of(item_name@), cfg, *item_vis, d),
        },
{
    let c = match parse_directives(args) {
        Err(e) => return Err(e),
        Ok(c) => c,
    };
    let cfg = Config::builtin().with_customisations(&c);
    let docs = match get_docs(attrs, cfg.trim) {
        Err(e) => return Err(e),
        Ok(None) => return Err(AnalysisError::MissingDocumentation),
        Ok(Some(d)) => d,
    };
    let cased = screaming_snake(item_name);
    const_from_parts(cased.as_str(), &cfg, item_vis, docs)
}

} // verus!
