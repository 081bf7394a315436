//! The SPP string-id mapper: each string identifier that is defined gets the
//! next 16-bit id, so that messages can name it by the short id.

use vstd::prelude::*;
use bimap::{BiHashMap, BiMap};

verus! {

#[verifier::external_type_specification]
#[verifier::external_body]
#[verifier::reject_recursive_types(L)]
#[verifier::reject_recursive_types(R)]
#[verifier::reject_recursive_types(LS)]
#[verifier::reject_recursive_types(RS)]
pub struct ExBiHashMap<L, R, LS, RS>(BiHashMap<L, R, LS, RS>);

/// The pairs a bimap of ids and strings holds, as a map from the id (the
/// left value) to the string (the right value).
pub uninterp spec fn pairs(m: BiMap<u16, &str>) -> Map<u16, Seq<char>>;

/// A bimap of ids and the strings they stand for.
pub type IdMap<'a> = BiMap<u16, &'a str>;

/// `BiMap::new`: an empty bimap.
#[verifier::external_body]
fn bimap_new<'a>() -> (r: IdMap<'a>)
    ensures
        pairs(r).dom() == Set::<u16>::empty(),
{
    BiMap::new()
}

/// `BiMap::get_by_right`: the id paired with the string, if any.
#[verifier::external_body]
fn bimap_get_by_right<'a>(m: &BiMap<u16, &'a str>, right: &'a str) -> (r: Option<u16>)
    ensures
        r matches Some(l) ==> pairs(*m).contains_key(l) && pairs(*m)[l] == right@,
        r is None ==> forall|l: u16| #[trigger]
            pairs(*m).contains_key(l) ==> pairs(*m)[l] != right@,
{
    match m.get_by_right(&right) {
        Some(l) => Some(*l),
        None => None,
    }
}

/// `BiMap::get_by_left`: the string paired with the id, if any.
#[verifier::external_body]
fn bimap_get_by_left<'a>(m: &BiMap<u16, &'a str>, left: u16) -> (r: Option<&'a str>)
    ensures
        r is Some <==> pairs(*m).contains_key(left),
        r matches Some(s) ==> s@ == pairs(*m)[left],
{
    match m.get_by_left(&left) {
        Some(s) => Some(*s),
        None => None,
    }
}

/// `BiMap::insert`: removes any pair that holds the id or the string, then
/// pairs the two.
#[verifier::external_body]
fn bimap_insert<'a>(m: &mut BiMap<u16, &'a str>, left: u16, right: &'a str)
    ensures
        pairs(*final(m)) == pairs(*old(m)).restrict(
            Set::new(|k: u16| pairs(*old(m))[k] != right@),
        ).insert(left, right@),
{
    m.insert(left, right);
}

/// What a mapper holds: the ids defined so far with their strings, and the
/// last id given out.
pub struct MapperView {
    pub ids: Map<u16, Seq<char>>,
    pub count: u16,
}

/// No two ids carry the same string, and every id is one given out: from 1
/// to the count.
pub open spec fn mapper_wf(v: MapperView) -> bool {
    &&& forall|a: u16, b: u16|
        #![trigger v.ids[a], v.ids[b]]
        v.ids.contains_key(a) && v.ids.contains_key(b) && v.ids[a] == v.ids[b] ==> a == b
    &&& forall|a: u16| #[trigger] v.ids.contains_key(a) ==> 1 <= a <= v.count
}

/// The id of a string, if it has one.
pub open spec fn lookup_string(v: MapperView, s: Seq<char>) -> Option<u16> {
    if exists|l: u16| #[trigger] v.ids.contains_key(l) && v.ids[l] == s {
        Some(choose|l: u16| #[trigger] v.ids.contains_key(l) && v.ids[l] == s)
    } else {
        None
    }
}

/// The string of an id, if it has one.
pub open spec fn lookup_id(v: MapperView, id: u16) -> Option<Seq<char>> {
    if v.ids.contains_key(id) {
        Some(v.ids[id])
    } else {
        None
    }
}

/// Defining a string: the next id is given to it, and leaves the id that it
/// had before.
pub open spec fn define(v: MapperView, s: Seq<char>) -> MapperView {
    MapperView {
        ids: v.ids.restrict(Set::new(|k: u16| v.ids[k] != s)).insert((v.count + 1) as u16, s),
        count: (v.count + 1) as u16,
    }
}

/// Gives out ids 1, 2, 3, ... to the strings defined, and finds either side
/// from the other.
pub struct SppMapper<'a> {
    mp: BiMap<u16, &'a str>,
    cnt: u16,
}

impl<'a> View for SppMapper<'a> {
    type V = MapperView;

    closed spec fn view(&self) -> MapperView {
        MapperView { ids: pairs(self.mp), count: self.cnt }
    }
}

impl<'a> SppMapper<'a> {
    /// A mapper with no string defined.
    pub fn new() -> (m: SppMapper<'a>)
        ensures
            mapper_wf(m@),
            m@.ids == Map::<u16, Seq<char>>::empty(),
            m@.count == 0,
    {
        let m = SppMapper { mp: bimap_new(), cnt: 0 };
        assert(m@.ids =~= Map::<u16, Seq<char>>::empty());
        m
    }

    /// The id of the string, if it is defined.
    pub fn string_to_integer(&self, id: &'a str) -> (r: Option<u16>)
        requires
            mapper_wf(self@),
        ensures
            r == lookup_string(self@, id@),
    {
        let r = bimap_get_by_right(&self.mp, id);
        proof {
            if let Some(l) = r {
                let c = choose|l: u16| #[trigger] self@.ids.contains_key(l) && self@.ids[l] == id@;
                assert(self@.ids.contains_key(l) && self@.ids[l] == id@);
                assert(self@.ids[c] == self@.ids[l]);
            }
        }
        r
    }

    /// The string of the id, if it is given out.
    pub fn integer_to_string(&self, id: u16) -> (r: Option<&'a str>)
        ensures
            match r {
                Some(s) => lookup_id(self@, id) == Some(s@),
                None => lookup_id(self@, id) is None,
            },
    {
        bimap_get_by_left(&self.mp, id)
    }

    /// Gives the string the next id. Panics when all 65535 ids are given out.
    pub fn define_string_id(&mut self, id: &'a str)
        requires
            mapper_wf(old(self)@),
            old(self)@.count < u16::MAX,
        ensures
            mapper_wf(final(self)@),
            final(self)@ == define(old(self)@, id@),
    {
        self.cnt = self.cnt + 1;
        bimap_insert(&mut self.mp, self.cnt, id);
        proof {
            let v = self@;
            let o = old(self)@;
            assert(v.ids == define(o, id@).ids);
            assert forall|a: u16, b: u16|
                v.ids.contains_key(a) && v.ids.contains_key(b) && v.ids[a] == v.ids[b]
                    implies a == b by {
                if a != self.cnt && b != self.cnt {
                    assert(o.ids[a] == o.ids[b]);
                }
            }
        }
    }
}

/// A string just defined is found under the new id, and that id gives back
/// the string.
pub proof fn law_define_then_lookup(v: MapperView, s: Seq<char>)
    requires
        mapper_wf(v),
        v.count < u16::MAX,
    ensures
        mapper_wf(define(v, s)),
        lookup_string(define(v, s), s) == Some((v.count + 1) as u16),
        lookup_id(define(v, s), (v.count + 1) as u16) == Some(s),
{
    let w = define(v, s);
    let n = (v.count + 1) as u16;
    assert(w.ids.contains_key(n) && w.ids[n] == s);
    let c = choose|l: u16| #[trigger] w.ids.contains_key(l) && w.ids[l] == s;
    assert(c == n) by {
        if c != n {
            assert(v.ids.contains_key(c) && v.ids[c] != s);
        }
    }
    assert forall|a: u16, b: u16|
        w.ids.contains_key(a) && w.ids.contains_key(b) && w.ids[a] == w.ids[b] implies a == b by {
        if a != n && b != n {
            assert(v.ids[a] == v.ids[b]);
        }
    }
}

/// Defining a string leaves every other string where it was, and every id
/// that does not carry the defined string.
pub proof fn law_define_keeps_others(v: MapperView, s: Seq<char>, t: Seq<char>, id: u16)
    requires
        mapper_wf(v),
        v.count < u16::MAX,
        t != s,
        id != v.count + 1,
        lookup_id(v, id) != Some(s),
    ensures
        lookup_string(define(v, s), t) == lookup_string(v, t),
        lookup_id(define(v, s), id) == lookup_id(v, id),
{
    let w = define(v, s);
    if exists|l: u16| #[trigger] v.ids.contains_key(l) && v.ids[l] == t {
        let l = choose|l: u16| #[trigger] v.ids.contains_key(l) && v.ids[l] == t;
        assert(w.ids.contains_key(l) && w.ids[l] == t);
        let c = choose|l: u16| #[trigger] w.ids.contains_key(l) && w.ids[l] == t;
        assert(v.ids.contains_key(c) && v.ids[c] == t);
    } else {
        assert forall|l: u16| #[trigger] w.ids.contains_key(l) implies w.ids[l] != t by {
            if l != (v.count + 1) as u16 {
                assert(v.ids.contains_key(l));
            }
        }
    }
}

/// Ids and strings answer each other: a string has an id exactly when that
/// id carries the string.
pub proof fn law_lookup_inverse(v: MapperView, s: Seq<char>, id: u16)
    requires
        mapper_wf(v),
    ensures
        lookup_string(v, s) == Some(id) <==> lookup_id(v, id) == Some(s),
{
    if lookup_id(v, id) == Some(s) {
        assert(v.ids.contains_key(id) && v.ids[id] == s);
        let c = choose|l: u16| #[trigger] v.ids.contains_key(l) && v.ids[l] == s;
        assert(v.ids[c] == v.ids[id]);
    }
}

} // verus!
