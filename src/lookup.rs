//! Name-keyed lookup of member documentation: a positional index for
//! fields, an ordered decision table for variants.

use vstd::prelude::*;
use crate::config::{clone_text, Customisations};
use crate::config::resolved;
use crate::decl::{
    doc_fragments, lemma_fields_ignore_default, member_doc, member_docs, scope_customisations,
    scope_of, Attr, MemberDecl,
};
use crate::text::normalized;
use crate::error::{AnalysisError, Error};
use crate::ordered::{lemma_lex_irreflexive, lemma_lex_transitive, lex_lt, search, strictly_sorted};

verus! {

/// How the members of a container are told apart.
#[derive(Clone, Copy, Debug, PartialEq, Eq, Structural)]
pub enum Shape {
    Struct,
    Union,
    Enum,
}

/// The names of the members, in declaration order.
pub open spec fn names_of(ms: Seq<MemberDecl>) -> Seq<Option<Seq<char>>> {
    ms.map_values(|m: MemberDecl| m.name.deep_view())
}

/// The documentation of each member in order; the first member whose
/// analysis fails decides the error.
pub open spec fn members_docs(container: Customisations, ms: Seq<MemberDecl>, tagged: bool) -> Result<
    Seq<Option<Seq<char>>>,
    AnalysisError,
>
    decreases ms.len(),
{
    if ms.len() == 0 {
        Ok(Seq::empty())
    } else {
        match members_docs(container, ms.drop_last(), tagged) {
            Err(e) => Err(e),
            Ok(ds) => match member_doc(container, ms.last().attrs@, tagged) {
                Err(e) => Err(e),
                Ok(d) => Ok(ds.push(d)),
            },
        }
    }
}

/// The documentation of every member of a container, or the error that
/// stops its analysis.
pub open spec fn container_docs(attrs: Seq<Attr>, ms: Seq<MemberDecl>, tagged: bool) -> Result<
    Seq<Option<Seq<char>>>,
    AnalysisError,
> {
    match scope_of(attrs) {
        Err(e) => Err(e),
        Ok(c) => members_docs(c, ms, tagged),
    }
}

/// The position of the first member named `name`.
pub open spec fn position(names: Seq<Option<Seq<char>>>, name: Seq<char>) -> Option<int>
    decreases names.len(),
{
    if names.len() == 0 {
        None
    } else {
        match position(names.drop_last(), name) {
            Some(i) => Some(i),
            None => if names.last() == Some(name) {
                Some(names.len() - 1)
            } else {
                None
            },
        }
    }
}

/// What a query for `name` finds: `None` for no such member, else the
/// member's documentation, which may be absent.
pub open spec fn lookup(
    names: Seq<Option<Seq<char>>>,
    docs: Seq<Option<Seq<char>>>,
    name: Seq<char>,
) -> Option<Option<Seq<char>>> {
    match position(names, name) {
        None => None,
        Some(i) => Some(docs[i]),
    }
}

/// `r` is the answer to a query for `name` that found `found`.
pub open spec fn answers(r: Result<String, Error>, found: Option<Option<Seq<char>>>, name: Seq<char>) -> bool {
    match found {
        None => r matches Err(Error::NoSuchField(n)) && n@ == name,
        Some(None) => r matches Err(Error::NoDocComments(n)) && n@ == name,
        Some(Some(d)) => r matches Ok(s) && s@ == d,
    }
}

/// No name occurs twice.
pub open spec fn distinct_names(names: Seq<Option<Seq<char>>>) -> bool {
    forall|i: int, j: int|
        0 <= i < j < names.len() && names[i] is Some ==> names[i] != names[j]
}

fn name_is(n: &Option<String>, target: &String) -> (r: bool)
    ensures
        r == (n.deep_view() == Some(target@)),
{
    match n {
        Some(s) => *s == *target,
        None => false,
    }
}

proof fn lemma_position_found(names: Seq<Option<Seq<char>>>, name: Seq<char>)
    ensures
        match position(names, name) {
            None => forall|j: int| 0 <= j < names.len() ==> names[j] != Some(name),
            Some(i) => 0 <= i < names.len() && names[i] == Some(name) && forall|j: int|
                0 <= j < i ==> names[j] != Some(name),
        },
    decreases names.len(),
{
    if names.len() > 0 {
        let p = names.drop_last();
        lemma_position_found(p, name);
        assert forall|j: int| 0 <= j < p.len() implies p[j] == names[j] by {}
    }
}

/// The position of the first of `names` that is `name`.
fn find(names: &Vec<Option<String>>, name: &str) -> (r: Option<usize>)
    ensures
        r is Some ==> r->0 < names.len(),
        match r {
            None => position(names.deep_view(), name@) is None,
            Some(i) => position(names.deep_view(), name@) == Some(i as int),
        },
{
    proof {
        lemma_position_found(names.deep_view(), name@);
    }
    let target = String::from_str(name);
    let mut k: usize = 0;
    assert(names.deep_view().take(0) =~= Seq::<Option<Seq<char>>>::empty());
    while k < names.len()
        invariant
            k <= names.len(),
            target@ == name@,
            position(names.deep_view().take(k as int), name@) is None,
        decreases names.len() - k,
    {
        let ghost t = names.deep_view().take(k + 1);
        assert(t.drop_last() =~= names.deep_view().take(k as int));
        if name_is(&names[k], &target) {
            proof {
                lemma_position_prefix(names.deep_view(), name@, k as int + 1);
            }
            return Some(k);
        }
        k += 1;
    }
    assert(names.deep_view().take(k as int) =~= names.deep_view());
    None
}

proof fn lemma_position_prefix(names: Seq<Option<Seq<char>>>, name: Seq<char>, k: int)
    requires
        0 <= k <= names.len(),
        position(names.take(k), name) is Some,
    ensures
        position(names, name) == position(names.take(k), name),
    decreases names.len() - k,
{
    if k < names.len() {
        assert(names.take(k + 1).drop_last() =~= names.take(k));
        lemma_position_prefix(names, name, k + 1);
    } else {
        assert(names.take(k) =~= names);
    }
}

/// `keys` holds each member name once, and `slots` the position of the
/// first member of that name.
pub open spec fn index_covers(
    names: Seq<Option<Seq<char>>>,
    keys: Seq<Seq<char>>,
    slots: Seq<usize>,
) -> bool {
    &&& keys.len() == slots.len()
    &&& forall|t: int|
        0 <= t < keys.len() ==> position(names, #[trigger] keys[t]) == Some(slots[t] as int)
    &&& forall|n: Seq<char>|
        (#[trigger] position(names, n)) is Some ==> exists|t: int|
            0 <= t < keys.len() && keys[t] == n
}

proof fn lemma_position_push(s: Seq<Option<Seq<char>>>, x: Option<Seq<char>>, n: Seq<char>)
    ensures
        position(s.push(x), n) == (if position(s, n) is Some {
            position(s, n)
        } else if x == Some(n) {
            Some(s.len() as int)
        } else {
            None
        }),
{
    assert(s.push(x).drop_last() =~= s);
}

/// The sorted name index of `names`.
fn build_index(names: &Vec<Option<String>>) -> (r: (Vec<String>, Vec<usize>))
    ensures
        strictly_sorted(r.0.deep_view()),
        index_covers(names.deep_view(), r.0.deep_view(), r.1@),
{
    let ghost nv = names.deep_view();
    let mut keys: Vec<String> = Vec::new();
    let mut slots: Vec<usize> = Vec::new();
    let mut k: usize = 0;
    assert(nv.take(0) =~= Seq::<Option<Seq<char>>>::empty());
    assert(keys.deep_view() =~= Seq::<Seq<char>>::empty());
    while k < names.len()
        invariant
            k <= names.len(),
            nv == names.deep_view(),
            strictly_sorted(keys.deep_view()),
            index_covers(nv.take(k as int), keys.deep_view(), slots@),
        decreases names.len() - k,
    {
        let ghost before = nv.take(k as int);
        let ghost x = nv[k as int];
        let ghost ks = keys.deep_view();
        let ghost ss = slots@;
        assert(nv.take(k + 1) =~= before.push(x));
        assert(x == names@[k as int].deep_view());
        match &names[k] {
            None => {
                assert forall|t: int| 0 <= t < ks.len() implies position(
                    before.push(x),
                    #[trigger] ks[t],
                ) == Some(ss[t] as int) by {
                    lemma_position_push(before, x, ks[t]);
                }
                assert forall|n: Seq<char>| (#[trigger] position(before.push(x), n)) is Some implies exists|t: int|
                    0 <= t < ks.len() && ks[t] == n by {
                    lemma_position_push(before, x, n);
                }
            },
            Some(nm) => {
                match search(&keys, nm.as_str()) {
                    Ok(t0) => {
                        assert(position(before, nm@) is Some);
                        assert forall|t: int| 0 <= t < ks.len() implies position(
                            before.push(x),
                            #[trigger] ks[t],
                        ) == Some(ss[t] as int) by {
                            lemma_position_push(before, x, ks[t]);
                        }
                        assert forall|n: Seq<char>| (#[trigger] position(before.push(x), n)) is Some implies exists|t: int|
                            0 <= t < ks.len() && ks[t] == n by {
                            lemma_position_push(before, x, n);
                        }
                    },
                    Err(p) => {
                        proof {
                            if position(before, nm@) is Some {
                                let t = choose|t: int| 0 <= t < ks.len() && ks[t] == nm@;
                                lemma_lex_irreflexive(nm@);
                                if t < p {
                                    assert(lex_lt(ks[t], nm@));
                                } else {
                                    assert(lex_lt(nm@, ks[t]));
                                }
                            }
                        }
                        assert(position(before, nm@) is None);
                        keys.insert(p, nm.clone());
                        slots.insert(p, k);
                        let ghost ks2 = keys.deep_view();
                        assert(ks2 =~= ks.insert(p as int, nm@));
                        assert(slots@ =~= ss.insert(p as int, k));
                        assert forall|i: int, j: int| 0 <= i < j < ks2.len() implies lex_lt(
                            ks2[i],
                            ks2[j],
                        ) by {
                            if j < p {
                            } else if j == p {
                                assert(lex_lt(ks[i], nm@));
                            } else if i < p {
                                assert(lex_lt(nm@, ks[j - 1]));
                                lemma_lex_transitive(ks[i], nm@, ks[j - 1]);
                            } else if i == p {
                                assert(lex_lt(nm@, ks[j - 1]));
                            } else {
                                assert(lex_lt(ks[i - 1], ks[j - 1]));
                            }
                        }
                        assert forall|t: int| 0 <= t < ks2.len() implies position(
                            before.push(x),
                            #[trigger] ks2[t],
                        ) == Some(slots@[t] as int) by {
                            lemma_position_push(before, x, ks2[t]);
                            if t < p {
                                assert(ks2[t] == ks[t]);
                            } else if t > p {
                                assert(ks2[t] == ks[t - 1]);
                            }
                        }
                        assert forall|n: Seq<char>| (#[trigger] position(before.push(x), n)) is Some implies exists|t: int|
                            0 <= t < ks2.len() && ks2[t] == n by {
                            lemma_position_push(before, x, n);
                            if n == nm@ {
                                assert(ks2[p as int] == n);
                            } else {
                                let t = choose|t: int| 0 <= t < ks.len() && ks[t] == n;
                                if t < p {
                                    assert(ks2[t] == n);
                                } else {
                                    assert(ks2[t + 1] == n);
                                }
                            }
                        }
                    },
                }
            },
        }
        k += 1;
    }
    assert(nv.take(k as int) =~= nv);
    (keys, slots)
}

/// Answers a query for `name` that found a member with documentation `d`.
fn answer(d: &Option<String>, name: &str) -> (r: Result<String, Error>)
    ensures
        answers(r, Some(d.deep_view()), name@),
{
    match d {
        None => Err(Error::NoDocComments(String::from_str(name))),
        Some(t) => Ok(t.clone()),
    }
}

/// The documentation of every member of a container, in declaration order,
/// with the index from member name to position: the names sorted once, at
/// build time, and searched by halving.
pub struct FieldIndex {
    names: Vec<Option<String>>,
    docs: Vec<Option<String>>,
    keys: Vec<String>,
    slots: Vec<usize>,
}

impl FieldIndex {
    /// The member names, in declaration order.
    pub closed spec fn names_view(&self) -> Seq<Option<Seq<char>>> {
        self.names.deep_view()
    }

    /// The members' documentation, in declaration order.
    pub closed spec fn docs_view(&self) -> Seq<Option<Seq<char>>> {
        self.docs.deep_view()
    }

    #[verifier::type_invariant]
    closed spec fn inv(&self) -> bool {
        &&& self.names.len() == self.docs.len()
        &&& strictly_sorted(self.keys.deep_view())
        &&& index_covers(self.names.deep_view(), self.keys.deep_view(), self.slots@)
    }

    /// The documentation of each member, absent ones included.
    pub fn field_docs(&self) -> (r: &Vec<Option<String>>)
        ensures
            r.deep_view() == self.docs_view(),
    {
        &self.docs
    }

    /// The position of the member named `name`.
    pub fn get_index(&self, name: &str) -> (r: Option<usize>)
        ensures
            r is Some ==> r->0 < self.names_view().len(),
            match r {
                None => position(self.names_view(), name@) is None,
                Some(i) => position(self.names_view(), name@) == Some(i as int),
            },
    {
        proof {
            use_type_invariant(self);
            lemma_position_found(self.names_view(), name@);
        }
        match search(&self.keys, name) {
            Ok(t) => {
                assert(self.keys.deep_view()[t as int] == name@);
                Some(self.slots[t])
            },
            Err(p) => {
                proof {
                    if position(self.names_view(), name@) is Some {
                        let ks = self.keys.deep_view();
                        let t = choose|t: int| 0 <= t < ks.len() && ks[t] == name@;
                        lemma_lex_irreflexive(name@);
                        if t < p {
                            assert(lex_lt(ks[t], name@));
                        } else {
                            assert(lex_lt(name@, ks[t]));
                        }
                    }
                }
                None
            },
        }
    }

    /// The documentation of the member named `name`.
    pub fn get_field_docs(&self, name: &str) -> (r: Result<String, Error>)
        ensures
            answers(r, lookup(self.names_view(), self.docs_view(), name@), name@),
    {
        proof {
            use_type_invariant(self);
        }
        match self.get_index(name) {
            None => Err(Error::NoSuchField(String::from_str(name))),
            Some(i) => {
                assert(self.docs.deep_view()[i as int] == self.docs@[i as int].deep_view());
                answer(&self.docs[i], name)
            },
        }
    }
}

/// The ordered decision table of an enum: one arm per variant, tried in
/// declaration order.
pub struct VariantTable {
    names: Vec<Option<String>>,
    docs: Vec<Option<String>>,
}

impl VariantTable {
    /// The variant names, in declaration order.
    pub closed spec fn names_view(&self) -> Seq<Option<Seq<char>>> {
        self.names.deep_view()
    }

    /// The variants' documentation, in declaration order.
    pub closed spec fn docs_view(&self) -> Seq<Option<Seq<char>>> {
        self.docs.deep_view()
    }

    #[verifier::type_invariant]
    closed spec fn inv(&self) -> bool {
        self.names.len() == self.docs.len()
    }

    /// The documentation of the variant named `name`: the arms are compared
    /// in order and the first that matches answers.
    pub fn get_variant_docs(&self, name: &str) -> (r: Result<String, Error>)
        ensures
            answers(r, lookup(self.names_view(), self.docs_view(), name@), name@),
    {
        proof {
            use_type_invariant(self);
        }
        match find(&self.names, name) {
            None => Err(Error::NoSuchField(String::from_str(name))),
            Some(i) => {
                assert(self.docs.deep_view()[i as int] == self.docs@[i as int].deep_view());
                answer(&self.docs[i], name)
            },
        }
    }
}

proof fn lemma_members_error_sticks(c: Customisations, ms: Seq<MemberDecl>, tagged: bool, k: int)
    requires
        0 <= k <= ms.len(),
        members_docs(c, ms.take(k), tagged) is Err,
    ensures
        members_docs(c, ms, tagged) == members_docs(c, ms.take(k), tagged),
    decreases ms.len() - k,
{
    if k < ms.len() {
        assert(ms.take(k + 1).drop_last() =~= ms.take(k));
        lemma_members_error_sticks(c, ms, tagged, k + 1);
    } else {
        assert(ms.take(k) =~= ms);
    }
}

/// Resolves the documentation of every member, with the member names.
fn analyze(attrs: &Vec<Attr>, members: &Vec<MemberDecl>, tagged: bool) -> (r: Result<
    (Vec<Option<String>>, Vec<Option<String>>),
    AnalysisError,
>)
    ensures
        match r {
            Ok((names, docs)) => container_docs(attrs@, members@, tagged) == Ok::<
                Seq<Option<Seq<char>>>,
                AnalysisError,
            >(docs.deep_view()) && names.deep_view() == names_of(members@) && names.len()
                == docs.len(),
            Err(e) => container_docs(attrs@, members@, tagged) == Err::<
                Seq<Option<Seq<char>>>,
                AnalysisError,
            >(e),
        },
{
    let c = match scope_customisations(attrs) {
        Err(e) => return Err(e),
        Ok(c) => c,
    };
    let mut names: Vec<Option<String>> = Vec::new();
    let mut docs: Vec<Option<String>> = Vec::new();
    let mut k: usize = 0;
    assert(members@.take(0) =~= Seq::<MemberDecl>::empty());
    assert(names.deep_view() =~= names_of(members@.take(0)));
    assert(docs.deep_view() =~= Seq::<Option<Seq<char>>>::empty());
    while k < members.len()
        invariant
            k <= members.len(),
            scope_of(attrs@) == Ok::<Customisations, AnalysisError>(c),
            names.len() == docs.len(),
            names.deep_view() == names_of(members@.take(k as int)),
            members_docs(c, members@.take(k as int), tagged) == Ok::<
                Seq<Option<Seq<char>>>,
                AnalysisError,
            >(docs.deep_view()),
        decreases members.len() - k,
    {
        let ghost t = members@.take(k + 1);
        assert(t.drop_last() =~= members@.take(k as int));
        let m = &members[k];
        match member_docs(&c, &m.attrs, tagged) {
            Err(e) => {
                proof {
                    lemma_members_error_sticks(c, members@, tagged, k as int + 1);
                }
                return Err(e);
            },
            Ok(d) => {
                let ghost nb = names.deep_view();
                let ghost db = docs.deep_view();
                let ghost dv = d.deep_view();
                names.push(clone_text(&m.name));
                docs.push(d);
                assert(names.deep_view() =~= nb.push(m.name.deep_view()));
                assert(names_of(t) =~= names_of(members@.take(k as int)).push(m.name.deep_view()));
                assert(docs.deep_view() =~= db.push(dv));
            },
        }
        k += 1;
    }
    assert(members@.take(k as int) =~= members@);
    Ok((names, docs))
}

/// Builds the positional index of a container's fields (or variants): the
/// documentation of each member, in declaration order, and the position of
/// each name. A default text stands in for missing documentation only
/// where the container is an enum.
pub fn documented_fields(shape: Shape, attrs: &Vec<Attr>, members: &Vec<MemberDecl>) -> (r: Result<
    FieldIndex,
    AnalysisError,
>)
    ensures
        match r {
            Ok(ix) => container_docs(attrs@, members@, shape == Shape::Enum) == Ok::<
                Seq<Option<Seq<char>>>,
                AnalysisError,
            >(ix.docs_view()) && ix.names_view() == names_of(members@),
            Err(e) => container_docs(attrs@, members@, shape == Shape::Enum) == Err::<
                Seq<Option<Seq<char>>>,
                AnalysisError,
            >(e),
        },
{
    match analyze(attrs, members, shape == Shape::Enum) {
        Err(e) => Err(e),
        Ok((names, docs)) => {
            let (keys, slots) = build_index(&names);
            Ok(FieldIndex { names, docs, keys, slots })
        },
    }
}

/// Builds the decision table of an enum's variants; any other shape is
/// refused.
pub fn documented_variants(shape: Shape, attrs: &Vec<Attr>, variants: &Vec<MemberDecl>) -> (r:
    Result<VariantTable, AnalysisError>)
    ensures
        shape != Shape::Enum ==> r == Err::<VariantTable, AnalysisError>(
            AnalysisError::UnsupportedShape,
        ),
        shape == Shape::Enum ==> match r {
            Ok(t) => container_docs(attrs@, variants@, true) == Ok::<
                Seq<Option<Seq<char>>>,
                AnalysisError,
            >(t.docs_view()) && t.names_view() == names_of(variants@),
            Err(e) => container_docs(attrs@, variants@, true) == Err::<
                Seq<Option<Seq<char>>>,
                AnalysisError,
            >(e),
        },
{
    if shape != Shape::Enum {
        return Err(AnalysisError::UnsupportedShape);
    }
    match analyze(attrs, variants, true) {
        Err(e) => Err(e),
        Ok((names, docs)) => Ok(VariantTable { names, docs }),
    }
}

/// A query for a declared name finds that member's documentation, present
/// or absent; a query for any other name finds no member.
pub proof fn lemma_lookup_by_name(
    names: Seq<Option<Seq<char>>>,
    docs: Seq<Option<Seq<char>>>,
    name: Seq<char>,
)
    requires
        names.len() == docs.len(),
        distinct_names(names),
    ensures
        forall|i: int|
            0 <= i < names.len() && names[i] == Some(name) ==> lookup(names, docs, name) == Some(
                docs[i],
            ),
        (forall|i: int| 0 <= i < names.len() ==> names[i] != Some(name)) ==> lookup(
            names,
            docs,
            name,
        ) is None,
{
    lemma_position_found(names, name);
}

proof fn lemma_members_docs_each(c: Customisations, ms: Seq<MemberDecl>, tagged: bool)
    requires
        members_docs(c, ms, tagged) is Ok,
    ensures
        members_docs(c, ms, tagged)->Ok_0.len() == ms.len(),
        forall|i: int|
            0 <= i < ms.len() ==> member_doc(c, ms[i].attrs@, tagged) == Ok::<
                Option<Seq<char>>,
                AnalysisError,
            >(#[trigger] members_docs(c, ms, tagged)->Ok_0[i]),
    decreases ms.len(),
{
    if ms.len() > 0 {
        lemma_members_docs_each(c, ms.drop_last(), tagged);
        assert forall|i: int| 0 <= i < ms.len() - 1 implies ms.drop_last()[i] == ms[i] by {}
    }
}

/// In an enum, a default text given on the container or on a variant makes
/// that variant answer with documentation: a query for its name never finds
/// it absent.
pub proof fn lemma_default_answers(attrs: Seq<Attr>, ms: Seq<MemberDecl>, i: int)
    requires
        container_docs(attrs, ms, true) is Ok,
        distinct_names(names_of(ms)),
        0 <= i < ms.len(),
        ms[i].name is Some,
        scope_of(attrs)->Ok_0.default_text is Some || scope_of(ms[i].attrs@)->Ok_0.default_text is Some,
    ensures
        lookup(names_of(ms), container_docs(attrs, ms, true)->Ok_0, ms[i].name->0@) matches Some(Some(_)),
{
    let c = scope_of(attrs)->Ok_0;
    let ds = container_docs(attrs, ms, true)->Ok_0;
    lemma_members_docs_each(c, ms, true);
    assert(names_of(ms)[i] == Some(ms[i].name->0@));
    lemma_lookup_by_name(names_of(ms), ds, ms[i].name->0@);
    crate::decl::lemma_default_covers(c, ms[i].attrs@);
}

/// A struct's or union's positional documentation keeps every member
/// without documentation as absent, whatever default is configured: a query
/// for such a member's name finds it absent.
pub proof fn lemma_positional_keeps_absent(attrs: Seq<Attr>, ms: Seq<MemberDecl>, i: int)
    requires
        container_docs(attrs, ms, false) is Ok,
        0 <= i < ms.len(),
    ensures
        container_docs(attrs, ms, false)->Ok_0[i] == normalized(
            doc_fragments(ms[i].attrs@)->0,
            resolved(scope_of(attrs)->Ok_0, scope_of(ms[i].attrs@)->Ok_0).trim,
        ),
{
    let c = scope_of(attrs)->Ok_0;
    lemma_members_docs_each(c, ms, false);
    let d = members_docs(c, ms, false)->Ok_0[i];
    assert(member_doc(c, ms[i].attrs@, false) == Ok::<Option<Seq<char>>, AnalysisError>(d));
    lemma_fields_ignore_default(c, ms[i].attrs@);
}

} // verus!
