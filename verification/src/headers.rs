//! A header table: names mapped to one or more byte values, viewed as a
//! `Map` from name to the sequence of values, and the replacement operation
//! that lets one table override another.

use vstd::prelude::*;

use crate::keymap::KeyMap;

verus! {

fn clone_bytes(v: &Vec<u8>) -> (r: Vec<u8>)
    ensures
        r@ == v@,
{
    let mut r: Vec<u8> = Vec::new();
    let mut i: usize = 0;
    while i < v.len()
        invariant
            i <= v@.len(),
            r@ == v@.take(i as int),
        decreases v@.len() - i,
    {
        r.push(v[i]);
        proof {
            assert(r@ =~= v@.take(i + 1 as int));
        }
        i += 1;
    }
    proof {
        assert(v@.take(v@.len() as int) =~= v@);
    }
    r
}

fn clone_values(v: &Vec<Vec<u8>>) -> (r: Vec<Vec<u8>>)
    ensures
        r.deep_view() == v.deep_view(),
{
    let mut r: Vec<Vec<u8>> = Vec::new();
    let mut i: usize = 0;
    while i < v.len()
        invariant
            i <= v@.len(),
            r@.len() == i,
            forall|j: int| 0 <= j < i ==> #[trigger] r@[j]@ == v@[j]@,
        decreases v@.len() - i,
    {
        r.push(clone_bytes(&v[i]));
        i += 1;
    }
    proof {
        assert(r.deep_view() =~= v.deep_view());
    }
    r
}

/// A table of header names, each with one or more byte values, in the order
/// they were appended.
pub struct Headers {
    entries: KeyMap<Vec<Vec<u8>>>,
}

impl View for Headers {
    type V = Map<Seq<char>, Seq<Seq<u8>>>;

    closed spec fn view(&self) -> Map<Seq<char>, Seq<Seq<u8>>> {
        self.entries@.map_values(|v: Vec<Vec<u8>>| v.deep_view())
    }
}

impl Headers {
    /// Names are pairwise distinct; every operation preserves this.
    pub closed spec fn wf(&self) -> bool {
        self.entries.wf()
    }

    /// An empty table.
    pub fn new() -> (r: Headers)
        ensures
            r.wf(),
            r@ == Map::<Seq<char>, Seq<Seq<u8>>>::empty(),
    {
        let r = Headers { entries: KeyMap::new() };
        proof {
            assert(r@ =~= Map::<Seq<char>, Seq<Seq<u8>>>::empty());
        }
        r
    }

    /// Sets the values of a name, dropping any it had.
    pub fn set_values(&mut self, name: String, values: Vec<Vec<u8>>)
        requires
            old(self).wf(),
        ensures
            final(self).wf(),
            final(self)@ == old(self)@.insert(name@, values.deep_view()),
    {
        self.entries.insert(name, values);
        proof {
            assert(self@ =~= old(self)@.insert(name@, values.deep_view()));
        }
    }

    /// The values of a name, in order, cloned out of the table.
    pub fn get_values(&self, name: &String) -> (r: Option<Vec<Vec<u8>>>)
        requires
            self.wf(),
        ensures
            (r is Some) == self@.contains_key(name@),
            match r {
                Some(v) => self@.contains_key(name@) && v.deep_view() == self@[name@],
                None => !self@.contains_key(name@),
            },
    {
        match self.entries.get(name) {
            Some(v) => Some(clone_values(v)),
            None => None,
        }
    }

    /// Appends one value to a name, after any it already has.
    pub fn append(&mut self, name: String, value: Vec<u8>)
        requires
            old(self).wf(),
        ensures
            final(self).wf(),
            final(self)@ == old(self)@.insert(
                name@,
                (if old(self)@.contains_key(name@) {
                    old(self)@[name@]
                } else {
                    Seq::<Seq<u8>>::empty()
                }).push(value@),
            ),
    {
        let mut vals: Vec<Vec<u8>> = match self.get_values(&name) {
            Some(v) => v,
            None => Vec::new(),
        };
        let ghost old_vals = vals.deep_view();
        vals.push(value);
        proof {
            assert(value.deep_view() =~= value@);
            assert(vals.deep_view() =~= old_vals.push(value@));
            if !old(self)@.contains_key(name@) {
                assert(old_vals =~= Seq::<Seq<u8>>::empty());
            }
        }
        self.set_values(name, vals);
    }

    /// The names of the table, one `String` per name of the view.
    pub fn names(&self) -> (r: Vec<String>)
        requires
            self.wf(),
        ensures
            forall|i: int| 0 <= i < r@.len() ==> self@.contains_key(#[trigger] r@[i]@),
            forall|k: Seq<char>|
                self@.contains_key(k) ==> exists|i: int| 0 <= i < r@.len() && r@[i]@ == k,
    {
        let r = self.entries.keys();
        proof {
            assert(self@.dom() =~= self.entries@.dom());
        }
        r
    }
}

/// The names that the first `n` entries of `names` carry.
pub open spec fn named_so_far(names: Seq<String>, n: int) -> Set<Seq<char>> {
    Set::new(|k: Seq<char>| exists|j: int| 0 <= j < n && #[trigger] names[j]@ == k)
}

/// Replaces headers in `dst` from `src`: every name of `src` ends with
/// exactly the values `src` holds for it (all values `dst` had for that
/// name are dropped); names absent from `src` keep their values.
pub fn replace_headers(dst: &mut Headers, src: Headers)
    requires
        old(dst).wf(),
        src.wf(),
    ensures
        final(dst).wf(),
        final(dst)@ == old(dst)@.union_prefer_right(src@),
{
    let names = src.names();
    let mut i: usize = 0;
    while i < names.len()
        invariant
            dst.wf(),
            src.wf(),
            forall|j: int| 0 <= j < names@.len() ==> src@.contains_key(#[trigger] names@[j]@),
            forall|k: Seq<char>|
                src@.contains_key(k) ==> exists|j: int| 0 <= j < names@.len() && names@[j]@ == k,
            i <= names@.len(),
            dst@ == old(dst)@.union_prefer_right(src@.restrict(named_so_far(names@, i as int))),
        decreases names@.len() - i,
    {
        let name = &names[i];
        let ghost pre = dst@;
        match src.get_values(name) {
            Some(vals) => {
                dst.set_values(name.clone(), vals);
            },
            None => {},
        }
        proof {
            let kk = names@[i as int]@;
            assert(src@.contains_key(kk));
            assert(dst@ == pre.insert(kk, src@[kk]));
            assert forall|k: Seq<char>|
                named_so_far(names@, i + 1).contains(k) == (named_so_far(
                    names@,
                    i as int,
                ).contains(k) || k == kk) by {
                if named_so_far(names@, i + 1).contains(k) {
                    let j = choose|j: int| 0 <= j < i + 1 && #[trigger] names@[j]@ == k;
                    if j < i {
                        assert(named_so_far(names@, i as int).contains(k));
                    }
                }
                if named_so_far(names@, i as int).contains(k) {
                    let j = choose|j: int| 0 <= j < i && #[trigger] names@[j]@ == k;
                    assert(names@[j]@ == k && 0 <= j < i + 1);
                    assert(named_so_far(names@, i + 1).contains(k));
                }
                if k == kk {
                    assert(names@[i as int]@ == k && 0 <= (i as int) < i + 1);
                    assert(named_so_far(names@, i + 1).contains(k));
                }
            }
            assert(dst@ =~= old(dst)@.union_prefer_right(
                src@.restrict(named_so_far(names@, i + 1)),
            ));
        }
        i += 1;
    }
    proof {
        assert forall|k: Seq<char>| #[trigger]
        src@.dom().contains(k) implies named_so_far(names@, names@.len() as int).contains(k) by {
            let j = choose|j: int| 0 <= j < names@.len() && names@[j]@ == k;
            assert(names@[j]@ == k);
        }
        assert(src@.restrict(named_so_far(names@, names@.len() as int)) =~= src@);
        assert(dst@ == old(dst)@.union_prefer_right(src@));
    }
}

} // verus!
