use vstd::prelude::*;
use smallvec::SmallVec;

verus! {

/// A small list of strings, held in a `smallvec::SmallVec<[String; 4]>`.
#[verifier::external_body]
#[derive(Debug)]
pub struct StringList {
    items: SmallVec<[String; 4]>,
}

/// The strings a `StringList` holds, in order.
pub uninterp spec fn string_items(v: StringList) -> Seq<Seq<char>>;

impl StringList {
    /// `SmallVec::new`: an empty list.
    #[verifier::external_body]
    pub(crate) fn new() -> (r: StringList)
        ensures
            string_items(r) == Seq::<Seq<char>>::empty(),
    {
        StringList { items: SmallVec::new() }
    }

    /// `SmallVec::push`: appends the string at the end.
    #[verifier::external_body]
    pub(crate) fn push(&mut self, s: String)
        ensures
            string_items(*final(self)) == string_items(*old(self)).push(s@),
    {
        self.items.push(s)
    }

    /// `SmallVec::len`: the number of strings held.
    #[verifier::external_body]
    pub(crate) fn len(&self) -> (r: usize)
        ensures
            r == string_items(*self).len(),
    {
        self.items.len()
    }

    /// Indexing a `SmallVec`: the string at position `i`.
    #[verifier::external_body]
    pub(crate) fn get(&self, i: usize) -> (r: &String)
        requires
            i < string_items(*self).len(),
        ensures
            r@ == string_items(*self)[i as int],
    {
        &self.items[i]
    }
}

/// A small list of indices, held in a `smallvec::SmallVec<[usize; 2]>`.
#[verifier::external_body]
#[derive(Debug)]
pub struct IndexList {
    items: SmallVec<[usize; 2]>,
}

/// The indices an `IndexList` holds, in order.
pub uninterp spec fn index_items(v: IndexList) -> Seq<usize>;

impl IndexList {
    /// `SmallVec::new`: an empty list.
    #[verifier::external_body]
    pub(crate) fn new() -> (r: IndexList)
        ensures
            index_items(r) == Seq::<usize>::empty(),
    {
        IndexList { items: SmallVec::new() }
    }

    /// `SmallVec::push`: appends the index at the end.
    #[verifier::external_body]
    pub(crate) fn push(&mut self, i: usize)
        ensures
            index_items(*final(self)) == index_items(*old(self)).push(i),
    {
        self.items.push(i)
    }

    /// `SmallVec::len`: the number of indices held.
    #[verifier::external_body]
    pub(crate) fn len(&self) -> (r: usize)
        ensures
            r == index_items(*self).len(),
    {
        self.items.len()
    }

    /// Indexing a `SmallVec`: the index at position `i`.
    #[verifier::external_body]
    pub(crate) fn get(&self, i: usize) -> (r: usize)
        requires
            i < index_items(*self).len(),
        ensures
            r == index_items(*self)[i as int],
    {
        self.items[i]
    }
}

impl StringList {
    /// A list holding the given strings, in order.
    pub fn from_vec(v: Vec<String>) -> (r: StringList)
        ensures
            string_items(r) == v@.map_values(|s: String| s@),
    {
        let mut r = StringList::new();
        let mut v = v;
        let ghost all = v@;
        let mut rest: Vec<String> = Vec::new();
        // Move the strings out in order by reading them back to front.
        while v.len() > 0
            invariant
                all == v@ + rest@.reverse(),
            decreases v@.len(),
        {
            let ghost before = v@;
            let s = v.pop().unwrap();
            proof {
                assert(before == v@.push(s));
                assert(rest@.push(s).reverse() =~= seq![s] + rest@.reverse());
                assert(v@ + (seq![s] + rest@.reverse()) =~= v@.push(s) + rest@.reverse());
            }
            rest.push(s);
        }
        let ghost rev = rest@;
        proof {
            assert(all =~= rest@.reverse());
        }
        while rest.len() > 0
            invariant
                all == rev.reverse(),
                rest@ == rev.take(rest@.len() as int),
                rest@.len() <= rev.len(),
                string_items(r) == all.take((rev.len() - rest@.len()) as int).map_values(|s: String| s@),
            decreases rest@.len(),
        {
            let ghost before = rest@;
            let s = rest.pop().unwrap();
            proof {
                let k = rev.len() - before.len();
                assert(s == rev[before.len() - 1]);
                assert(all[k] == rev[rev.len() - 1 - k]);
                assert(all.take(k + 1) =~= all.take(k).push(s));
                assert(rest@ =~= rev.take(rest@.len() as int));
            }
            r.push(s);
            proof {
                let k = rev.len() - before.len();
                assert(all.take(k + 1).map_values(|s: String| s@) =~= all.take(k).map_values(|s: String| s@).push(s@));
            }
        }
        proof {
            assert(all.take(all.len() as int) =~= all);
        }
        r
    }

    /// The strings of the list, in order.
    pub fn to_vec(&self) -> (r: Vec<String>)
        ensures
            r@.map_values(|s: String| s@) == string_items(*self),
    {
        let mut r: Vec<String> = Vec::new();
        let n = self.len();
        let mut i: usize = 0;
        while i < n
            invariant
                n == string_items(*self).len(),
                i <= n,
                r@.map_values(|s: String| s@) == string_items(*self).take(i as int),
            decreases n - i,
        {
            let s = self.get(i).clone();
            let ghost before = r@;
            r.push(s);
            proof {
                assert(r@.map_values(|s: String| s@) =~= before.map_values(|s: String| s@).push(s@));
                assert(string_items(*self).take(i + 1) =~= string_items(*self).take(i as int).push(string_items(*self)[i as int]));
            }
            i = i + 1;
        }
        proof {
            assert(string_items(*self).take(n as int) =~= string_items(*self));
        }
        r
    }
}

impl IndexList {
    /// The indices of the list, in order.
    pub fn to_vec(&self) -> (r: Vec<usize>)
        ensures
            r@ == index_items(*self),
    {
        let mut r: Vec<usize> = Vec::new();
        let n = self.len();
        let mut i: usize = 0;
        while i < n
            invariant
                n == index_items(*self).len(),
                i <= n,
                r@ == index_items(*self).take(i as int),
            decreases n - i,
        {
            r.push(self.get(i));
            proof {
                assert(index_items(*self).take(i + 1) =~= index_items(*self).take(i as int).push(index_items(*self)[i as int]));
            }
            i = i + 1;
        }
        proof {
            assert(index_items(*self).take(n as int) =~= index_items(*self));
        }
        r
    }

    /// A list holding the given indices, in order.
    pub fn from_vec(v: &Vec<usize>) -> (r: IndexList)
        ensures
            index_items(r) == v@,
    {
        let mut r = IndexList::new();
        let mut i: usize = 0;
        while i < v.len()
            invariant
                i <= v@.len(),
                index_items(r) == v@.take(i as int),
            decreases v@.len() - i,
        {
            r.push(v[i]);
            proof {
                assert(v@.take(i + 1) =~= v@.take(i as int).push(v@[i as int]));
            }
            i = i + 1;
        }
        proof {
            assert(v@.take(v@.len() as int) =~= v@);
        }
        r
    }
}

impl Clone for StringList {
    /// `SmallVec::clone`: a list of copies of the strings, in order.
    #[verifier::external_body]
    fn clone(&self) -> (r: Self)
        ensures
            string_items(r) == string_items(*self),
    {
        StringList { items: self.items.clone() }
    }
}

impl Clone for IndexList {
    /// `SmallVec::clone`: a list of the same indices, in order.
    #[verifier::external_body]
    fn clone(&self) -> (r: Self)
        ensures
            index_items(r) == index_items(*self),
    {
        IndexList { items: self.items.clone() }
    }
}

} // verus!
