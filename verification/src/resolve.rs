//! Identifier resolution: given a partial identifier (a name, an id, both or
//! neither) and a list of candidate entities, either select the single
//! matching entity or classify precisely why resolution failed.

use vstd::prelude::*;

verus! {

/// An entity that can be resolved against: it exposes a numeric id and a name.
pub trait Identify: Sized {
    spec fn spec_id(&self) -> u64;

    spec fn spec_name(&self) -> Seq<char>;

    fn id(&self) -> (r: u64)
        ensures
            r == self.spec_id(),
    ;

    fn name(&self) -> (r: &String)
        ensures
            r@ == self.spec_name(),
    ;
}

/// A fully materialized (id, name) pair: a candidate entity of its own, and
/// the form in which diagnostics list alternatives.
#[derive(Clone, Debug)]
pub struct OwnedIdentifier {
    pub id: u64,
    pub name: String,
}

impl OwnedIdentifier {
    pub fn new(id: u64, name: String) -> (r: OwnedIdentifier)
        ensures
            r.id == id,
            r.name == name,
    {
        OwnedIdentifier { id, name }
    }
}

impl Identify for OwnedIdentifier {
    open spec fn spec_id(&self) -> u64 {
        self.id
    }

    open spec fn spec_name(&self) -> Seq<char> {
        self.name@
    }

    fn id(&self) -> u64 {
        self.id
    }

    fn name(&self) -> &String {
        &self.name
    }
}

/// The (id, name) pairs of a candidate list, the level at which resolution is
/// specified.
pub open spec fn idents_of<I: Identify>(cs: Seq<I>) -> Seq<(u64, Seq<char>)> {
    cs.map_values(|c: I| (c.spec_id(), c.spec_name()))
}

/// The (id, name) pairs of a list of owned identifiers.
pub open spec fn idents_view(v: Seq<OwnedIdentifier>) -> Seq<(u64, Seq<char>)> {
    v.map_values(|o: OwnedIdentifier| (o.id, o.name@))
}

/// Holds of a candidate pair whose id equals the requested id.
pub open spec fn id_pred(id: u64) -> spec_fn((u64, Seq<char>)) -> bool {
    |c: (u64, Seq<char>)| c.0 == id
}

/// Holds of a candidate pair whose name equals the requested name exactly.
pub open spec fn name_pred(name: Seq<char>) -> spec_fn((u64, Seq<char>)) -> bool {
    |c: (u64, Seq<char>)| c.1 == name
}

/// The candidates whose id equals the requested id, in list order.
pub open spec fn id_matches(cs: Seq<(u64, Seq<char>)>, id: u64) -> Seq<(u64, Seq<char>)> {
    cs.filter(id_pred(id))
}

/// The candidates whose name equals the requested name exactly, in list order.
pub open spec fn name_matches(cs: Seq<(u64, Seq<char>)>, name: Seq<char>) -> Seq<
    (u64, Seq<char>),
> {
    cs.filter(name_pred(name))
}

/// The outcome that resolution owes for given inputs: either the selected
/// candidate, or a failure classification carrying its alternatives.
pub enum Resolution {
    Found { ident: (u64, Seq<char>) },
    NotSpecified { alternatives: Seq<(u64, Seq<char>)> },
    UnderSpecified { name: Seq<char>, alternatives: Seq<(u64, Seq<char>)> },
    NameConflict { name: Seq<char>, id: u64, alternatives: Seq<(u64, Seq<char>)> },
    IdConflict { name: Seq<char>, id: u64, alternatives: Seq<(u64, Seq<char>)> },
    NoSuchId { id: u64, alternatives: Seq<(u64, Seq<char>)> },
    NoSuchName { name: Seq<char>, alternatives: Seq<(u64, Seq<char>)> },
    NeitherNameNorId { name: Seq<char>, id: u64, alternatives: Seq<(u64, Seq<char>)> },
}

/// What resolving a partial identifier against a candidate list must produce,
/// by case analysis on which fields of the partial identifier are present.
pub open spec fn resolve_model(
    cs: Seq<(u64, Seq<char>)>,
    name: Option<Seq<char>>,
    id: Option<u64>,
) -> Resolution {
    match (name, id) {
        (None, None) => Resolution::NotSpecified { alternatives: cs },
        (None, Some(id)) => {
            let m = id_matches(cs, id);
            if m.len() == 0 {
                Resolution::NoSuchId { id, alternatives: cs }
            } else {
                Resolution::Found { ident: m[0] }
            }
        },
        (Some(n), None) => {
            let m = name_matches(cs, n);
            if m.len() == 0 {
                Resolution::NoSuchName { name: n, alternatives: cs }
            } else if m.len() == 1 {
                Resolution::Found { ident: m[0] }
            } else {
                Resolution::UnderSpecified { name: n, alternatives: m }
            }
        },
        (Some(n), Some(id)) => {
            let im = id_matches(cs, id);
            let nm = name_matches(cs, n);
            if im.len() > 0 {
                if im[0].1 == n {
                    Resolution::Found { ident: im[0] }
                } else {
                    Resolution::NameConflict { name: n, id, alternatives: im }
                }
            } else if nm.len() == 0 {
                Resolution::NeitherNameNorId { name: n, id, alternatives: cs }
            } else {
                Resolution::IdConflict { name: n, id, alternatives: nm }
            }
        },
    }
}

/// A failed resolution. Every variant carries the user-supplied value(s) and
/// the relevant candidates as alternatives, so diagnostics can always list
/// concrete entities rather than a bare "not found".
#[derive(Debug)]
pub enum IdentifyErr {
    NotSpecified { alternatives: Vec<OwnedIdentifier> },
    UnderSpecified { name: String, alternatives: Vec<OwnedIdentifier> },
    NameConflict { name: String, id: u64, alternatives: Vec<OwnedIdentifier> },
    IdConflict { name: String, id: u64, alternatives: Vec<OwnedIdentifier> },
    NoSuchId { id: u64, alternatives: Vec<OwnedIdentifier> },
    NoSuchName { name: String, alternatives: Vec<OwnedIdentifier> },
    NeitherNameNorId { name: String, id: u64, alternatives: Vec<OwnedIdentifier> },
}

/// The outcome that a failure value describes, at the specification level.
pub open spec fn err_model(e: IdentifyErr) -> Resolution {
    match e {
        IdentifyErr::NotSpecified { alternatives } => Resolution::NotSpecified {
            alternatives: idents_view(alternatives@),
        },
        IdentifyErr::UnderSpecified { name, alternatives } => Resolution::UnderSpecified {
            name: name@,
            alternatives: idents_view(alternatives@),
        },
        IdentifyErr::NameConflict { name, id, alternatives } => Resolution::NameConflict {
            name: name@,
            id,
            alternatives: idents_view(alternatives@),
        },
        IdentifyErr::IdConflict { name, id, alternatives } => Resolution::IdConflict {
            name: name@,
            id,
            alternatives: idents_view(alternatives@),
        },
        IdentifyErr::NoSuchId { id, alternatives } => Resolution::NoSuchId {
            id,
            alternatives: idents_view(alternatives@),
        },
        IdentifyErr::NoSuchName { name, alternatives } => Resolution::NoSuchName {
            name: name@,
            alternatives: idents_view(alternatives@),
        },
        IdentifyErr::NeitherNameNorId { name, id, alternatives } => Resolution::NeitherNameNorId {
            name: name@,
            id,
            alternatives: idents_view(alternatives@),
        },
    }
}

impl IdentifyErr {
    pub fn not_specified(alternatives: Vec<OwnedIdentifier>) -> (r: IdentifyErr)
        ensures
            r == (IdentifyErr::NotSpecified { alternatives }),
    {
        IdentifyErr::NotSpecified { alternatives }
    }

    pub fn under_specified(name: String, alternatives: Vec<OwnedIdentifier>) -> (r: IdentifyErr)
        ensures
            r == (IdentifyErr::UnderSpecified { name, alternatives }),
    {
        IdentifyErr::UnderSpecified { name, alternatives }
    }

    pub fn name_conflict(name: String, id: u64, alternatives: Vec<OwnedIdentifier>) -> (r:
        IdentifyErr)
        ensures
            r == (IdentifyErr::NameConflict { name, id, alternatives }),
    {
        IdentifyErr::NameConflict { name, id, alternatives }
    }

    pub fn id_conflict(name: String, id: u64, alternatives: Vec<OwnedIdentifier>) -> (r:
        IdentifyErr)
        ensures
            r == (IdentifyErr::IdConflict { name, id, alternatives }),
    {
        IdentifyErr::IdConflict { name, id, alternatives }
    }

    pub fn no_such_id(id: u64, alternatives: Vec<OwnedIdentifier>) -> (r: IdentifyErr)
        ensures
            r == (IdentifyErr::NoSuchId { id, alternatives }),
    {
        IdentifyErr::NoSuchId { id, alternatives }
    }

    pub fn no_such_name(name: String, alternatives: Vec<OwnedIdentifier>) -> (r: IdentifyErr)
        ensures
            r == (IdentifyErr::NoSuchName { name, alternatives }),
    {
        IdentifyErr::NoSuchName { name, alternatives }
    }

    pub fn neither_name_nor_id(name: String, id: u64, alternatives: Vec<OwnedIdentifier>) -> (r:
        IdentifyErr)
        ensures
            r == (IdentifyErr::NeitherNameNorId { name, id, alternatives }),
    {
        IdentifyErr::NeitherNameNorId { name, id, alternatives }
    }
}

/// Filtering a sequence extended by one element keeps the filtered prefix and
/// appends the new element exactly when it satisfies the predicate.
pub proof fn lemma_filter_push<A>(s: Seq<A>, x: A, pred: spec_fn(A) -> bool)
    ensures
        pred(x) ==> s.push(x).filter(pred) == s.filter(pred).push(x),
        !pred(x) ==> s.push(x).filter(pred) == s.filter(pred),
{
    reveal(Seq::filter);
    assert(s.push(x).drop_last() =~= s);
    assert(s.push(x).last() == x);
    assert(s.push(x).len() != 0);
}

/// Taking one more element of a sequence appends exactly that element.
pub proof fn lemma_take_push<A>(s: Seq<A>, k: int)
    requires
        0 <= k < s.len(),
    ensures
        s.take(k + 1) == s.take(k).push(s[k]),
{
    assert(s.take(k + 1) =~= s.take(k).push(s[k]));
}

/// A sequence none of whose elements satisfies the predicate filters to the
/// empty sequence.
pub proof fn lemma_filter_none<A>(s: Seq<A>, pred: spec_fn(A) -> bool)
    requires
        forall|j: int| 0 <= j < s.len() ==> !pred(s[j]),
    ensures
        s.filter(pred) == Seq::<A>::empty(),
    decreases s.len(),
{
    reveal(Seq::filter);
    if s.len() == 0 {
        assert(s =~= Seq::<A>::empty());
    } else {
        lemma_filter_none(s.drop_last(), pred);
    }
}

/// If the first element satisfying the predicate stands at position `k`, then
/// it is the first element of the filtered sequence.
pub proof fn lemma_filter_first<A>(s: Seq<A>, pred: spec_fn(A) -> bool, k: int)
    requires
        0 <= k < s.len(),
        pred(s[k]),
        forall|j: int| 0 <= j < k ==> !pred(s[j]),
    ensures
        s.filter(pred).len() > 0,
        s.filter(pred)[0] == s[k],
{
    lemma_filter_none(s.take(k), pred);
    lemma_take_push(s, k);
    lemma_filter_push(s.take(k), s[k], pred);
    assert(s =~= s.take(k + 1) + s.skip(k + 1));
    Seq::<A>::filter_distributes_over_add(s.take(k + 1), s.skip(k + 1), pred);
    assert(s.take(k + 1).filter(pred) == Seq::<A>::empty().push(s[k]));
    assert(s.filter(pred)[0] == s[k]);
}

/// The candidate list as owned (id, name) pairs, as diagnostics carry it.
pub fn all_idents<I: Identify>(candidates: &Vec<I>) -> (v: Vec<OwnedIdentifier>)
    ensures
        idents_view(v@) == idents_of(candidates@),
{
    let mut v: Vec<OwnedIdentifier> = Vec::new();
    let mut i: usize = 0;
    while i < candidates.len()
        invariant
            i <= candidates.len(),
            idents_view(v@) == idents_of(candidates@).take(i as int),
        decreases candidates.len() - i,
    {
        let ghost v0 = v@;
        let c = &candidates[i];
        v.push(OwnedIdentifier { id: c.id(), name: c.name().clone() });
        proof {
            lemma_take_push(idents_of(candidates@), i as int);
            assert(idents_view(v@) =~= idents_view(v0).push(
                (c.spec_id(), c.spec_name()),
            ));
        }
        i += 1;
    }
    proof {
        assert(idents_of(candidates@).take(candidates@.len() as int) =~= idents_of(candidates@));
    }
    v
}

/// The sequence of characters of an optionally supplied name.
pub open spec fn name_view(n: Option<&String>) -> Option<Seq<char>> {
    match n {
        Some(s) => Some(s@),
        None => None,
    }
}

/// Resolve a partial identifier against a candidate list.
///
/// With neither field present resolution always fails as `NotSpecified`. With
/// an id alone, the first candidate with that id wins, else `NoSuchId`. With a
/// name alone, a unique exact match wins; none is `NoSuchName` and several are
/// `UnderSpecified`. With both fields, an id match takes priority but its name
/// must also agree (`NameConflict` otherwise); with no id match, a name match
/// is `IdConflict` and no match at all is `NeitherNameNorId`.
pub fn try_match_among<'r, I: Identify>(
    candidates: &'r Vec<I>,
    partial_name: Option<&String>,
    partial_id: Option<u64>,
) -> (r: Result<&'r I, IdentifyErr>)
    ensures
        ({
            let model = resolve_model(idents_of(candidates@), name_view(partial_name), partial_id);
            match r {
                Ok(c) => (Resolution::Found { ident: (c.spec_id(), c.spec_name()) }) == model,
                Err(e) => err_model(e) == model,
            }
        }),
{
    match (partial_name, partial_id) {
        (None, None) => Err(IdentifyErr::not_specified(all_idents(candidates))),
        (None, Some(id)) => {
            let mut i: usize = 0;
            while i < candidates.len()
                invariant
                    partial_name is None,
                    partial_id == Some(id),
                    i <= candidates.len(),
                    forall|j: int|
                        0 <= j < i ==> (#[trigger] idents_of(candidates@)[j]).0 != id,
                decreases candidates.len() - i,
            {
                let c = &candidates[i];
                if c.id() == id {
                    proof {
                        lemma_filter_first(idents_of(candidates@), id_pred(id), i as int);
                    }
                    return Ok(c);
                }
                i += 1;
            }
            proof {
                lemma_filter_none(idents_of(candidates@), id_pred(id));
            }
            Err(IdentifyErr::no_such_id(id, all_idents(candidates)))
        },
        (Some(name), None) => {
            let mut first_match: Option<usize> = None;
            let mut alts: Vec<OwnedIdentifier> = Vec::new();
            let mut i: usize = 0;
            while i < candidates.len()
                invariant
                    partial_name == Some(name),
                    partial_id is None,
                    i <= candidates.len(),
                    idents_view(alts@) == name_matches(
                        idents_of(candidates@).take(i as int),
                        name@,
                    ),
                    match first_match {
                        Some(f) => f < i && idents_view(alts@).len() > 0 && idents_view(alts@)[0]
                            == idents_of(candidates@)[f as int],
                        None => idents_view(alts@).len() == 0,
                    },
                decreases candidates.len() - i,
            {
                let c = &candidates[i];
                proof {
                    lemma_take_push(idents_of(candidates@), i as int);
                    lemma_filter_push(
                        idents_of(candidates@).take(i as int),
                        idents_of(candidates@)[i as int],
                        name_pred(name@),
                    );
                }
                let ghost a0 = alts@;
                if c.name().eq(name) {
                    if first_match.is_none() {
                        first_match = Some(i);
                    }
                    alts.push(OwnedIdentifier { id: c.id(), name: c.name().clone() });
                    proof {
                        assert(idents_view(alts@) =~= idents_view(a0).push(
                            (c.spec_id(), c.spec_name()),
                        ));
                    }
                }
                i += 1;
            }
            proof {
                assert(idents_of(candidates@).take(candidates@.len() as int) =~= idents_of(
                    candidates@,
                ));
            }
            if alts.len() == 0 {
                Err(IdentifyErr::no_such_name(name.clone(), all_idents(candidates)))
            } else if alts.len() == 1 {
                let f = first_match.unwrap();
                Ok(&candidates[f])
            } else {
                Err(IdentifyErr::under_specified(name.clone(), alts))
            }
        },
        (Some(name), Some(id)) => {
            let mut id_first: Option<usize> = None;
            let mut id_alts: Vec<OwnedIdentifier> = Vec::new();
            let mut name_alts: Vec<OwnedIdentifier> = Vec::new();
            let mut i: usize = 0;
            while i < candidates.len()
                invariant
                    partial_name == Some(name),
                    partial_id == Some(id),
                    i <= candidates.len(),
                    idents_view(id_alts@) == id_matches(idents_of(candidates@).take(i as int), id),
                    idents_view(name_alts@) == name_matches(
                        idents_of(candidates@).take(i as int),
                        name@,
                    ),
                    match id_first {
                        Some(f) => f < i && idents_view(id_alts@).len() > 0 && idents_view(
                            id_alts@,
                        )[0] == idents_of(candidates@)[f as int],
                        None => idents_view(id_alts@).len() == 0,
                    },
                decreases candidates.len() - i,
            {
                let c = &candidates[i];
                proof {
                    lemma_take_push(idents_of(candidates@), i as int);
                    lemma_filter_push(
                        idents_of(candidates@).take(i as int),
                        idents_of(candidates@)[i as int],
                        id_pred(id),
                    );
                    lemma_filter_push(
                        idents_of(candidates@).take(i as int),
                        idents_of(candidates@)[i as int],
                        name_pred(name@),
                    );
                }
                let ghost ia0 = id_alts@;
                let ghost na0 = name_alts@;
                if c.id() == id {
                    if id_first.is_none() {
                        id_first = Some(i);
                    }
                    id_alts.push(OwnedIdentifier { id: c.id(), name: c.name().clone() });
                    proof {
                        assert(idents_view(id_alts@) =~= idents_view(ia0).push(
                            (c.spec_id(), c.spec_name()),
                        ));
                    }
                }
                if c.name().eq(name) {
                    name_alts.push(OwnedIdentifier { id: c.id(), name: c.name().clone() });
                    proof {
                        assert(idents_view(name_alts@) =~= idents_view(na0).push(
                            (c.spec_id(), c.spec_name()),
                        ));
                    }
                }
                i += 1;
            }
            proof {
                assert(idents_of(candidates@).take(candidates@.len() as int) =~= idents_of(
                    candidates@,
                ));
            }
            match id_first {
                Some(f) => {
                    let c = &candidates[f];
                    if c.name().eq(name) {
                        Ok(c)
                    } else {
                        Err(IdentifyErr::name_conflict(name.clone(), id, id_alts))
                    }
                },
                None => {
                    if name_alts.len() == 0 {
                        Err(
                            IdentifyErr::neither_name_nor_id(
                                name.clone(),
                                id,
                                all_idents(candidates),
                            ),
                        )
                    } else {
                        Err(IdentifyErr::id_conflict(name.clone(), id, name_alts))
                    }
                },
            }
        },
    }
}

/// With neither a name nor an id supplied, resolution always fails as
/// `NotSpecified`, whatever the candidate list — including the empty one —
/// and carries the whole list as alternatives.
pub proof fn lemma_resolve_not_specified(cs: Seq<(u64, Seq<char>)>)
    ensures
        resolve_model(cs, None, None) == (Resolution::NotSpecified { alternatives: cs }),
{
}

/// With an id alone: if no candidate bears the id, resolution fails as
/// `NoSuchId` with the whole list as alternatives; otherwise the first
/// candidate bearing the id is returned — in particular, when exactly one
/// candidate has the id, that candidate is returned.
pub proof fn lemma_resolve_id_only(cs: Seq<(u64, Seq<char>)>, id: u64)
    ensures
        id_matches(cs, id).len() == 0 ==> resolve_model(cs, None, Some(id))
            == (Resolution::NoSuchId { id, alternatives: cs }),
        id_matches(cs, id).len() > 0 ==> resolve_model(cs, None, Some(id))
            == (Resolution::Found { ident: id_matches(cs, id)[0] }),
{
}

/// With a name alone: zero exact matches fail as `NoSuchName`; exactly one
/// match returns that candidate; two or more fail as `UnderSpecified`, with
/// all matching candidates listed as alternatives.
pub proof fn lemma_resolve_name_only(cs: Seq<(u64, Seq<char>)>, name: Seq<char>)
    ensures
        name_matches(cs, name).len() == 0 ==> resolve_model(cs, Some(name), None)
            == (Resolution::NoSuchName { name, alternatives: cs }),
        name_matches(cs, name).len() == 1 ==> resolve_model(cs, Some(name), None)
            == (Resolution::Found { ident: name_matches(cs, name)[0] }),
        name_matches(cs, name).len() >= 2 ==> resolve_model(cs, Some(name), None)
            == (Resolution::UnderSpecified { name, alternatives: name_matches(cs, name) }),
{
}

/// With both fields supplied: an id match whose name also agrees succeeds; an
/// id match with a differing name is a `NameConflict`; no id match but a name
/// match is an `IdConflict` (the id must be honoured, never fallen back from);
/// and no match on either field is `NeitherNameNorId`.
pub proof fn lemma_resolve_name_and_id(cs: Seq<(u64, Seq<char>)>, name: Seq<char>, id: u64)
    ensures
        id_matches(cs, id).len() > 0 && id_matches(cs, id)[0].1 == name ==> resolve_model(
            cs,
            Some(name),
            Some(id),
        ) == (Resolution::Found { ident: id_matches(cs, id)[0] }),
        id_matches(cs, id).len() > 0 && id_matches(cs, id)[0].1 != name ==> resolve_model(
            cs,
            Some(name),
            Some(id),
        ) == (Resolution::NameConflict { name, id, alternatives: id_matches(cs, id) }),
        id_matches(cs, id).len() == 0 && name_matches(cs, name).len() == 0 ==> resolve_model(
            cs,
            Some(name),
            Some(id),
        ) == (Resolution::NeitherNameNorId { name, id, alternatives: cs }),
        id_matches(cs, id).len() == 0 && name_matches(cs, name).len() > 0 ==> resolve_model(
            cs,
            Some(name),
            Some(id),
        ) == (Resolution::IdConflict { name, id, alternatives: name_matches(cs, name) }),
{
}

/// Resolution is pure: its outcome is a function of the candidate list and
/// the partial identifier alone, so two resolutions of identical inputs have
/// identical outcomes.
pub proof fn lemma_resolve_idempotent(
    cs1: Seq<(u64, Seq<char>)>,
    cs2: Seq<(u64, Seq<char>)>,
    name1: Option<Seq<char>>,
    name2: Option<Seq<char>>,
    id1: Option<u64>,
    id2: Option<u64>,
)
    requires
        cs1 == cs2,
        name1 == name2,
        id1 == id2,
    ensures
        resolve_model(cs1, name1, id1) == resolve_model(cs2, name2, id2),
{
}

} // verus!
