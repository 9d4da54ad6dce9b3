//! The ownership index: an insertion-ordered map from asset identifier to
//! address, with paged enumeration.

use vstd::prelude::*;

verus! {

/// The abstract value of one entry: asset identifier and address.
pub open spec fn entry_view(e: (String, String)) -> (Seq<char>, Seq<char>) {
    (e.0@, e.1@)
}

/// The abstract values of a sequence of entries.
pub open spec fn entries_view(s: Seq<(String, String)>) -> Seq<(Seq<char>, Seq<char>)> {
    s.map_values(|e: (String, String)| entry_view(e))
}

/// No identifier occurs twice.
pub open spec fn keys_unique(s: Seq<(Seq<char>, Seq<char>)>) -> bool {
    forall|i: int, j: int| 0 <= i < j < s.len() ==> s[i].0 != s[j].0
}

/// Some entry has identifier `key`.
pub open spec fn has_key(s: Seq<(Seq<char>, Seq<char>)>, key: Seq<char>) -> bool {
    exists|i: int| 0 <= i < s.len() && s[i].0 == key
}

/// The position of the entry with identifier `key`.
pub open spec fn position_of(s: Seq<(Seq<char>, Seq<char>)>, key: Seq<char>) -> int {
    choose|i: int| 0 <= i < s.len() && s[i].0 == key
}

/// The entries after inserting `(key, value)`: an existing entry for `key`
/// is overwritten in place, otherwise the entry is appended.
pub open spec fn inserted(
    s: Seq<(Seq<char>, Seq<char>)>,
    key: Seq<char>,
    value: Seq<char>,
) -> Seq<(Seq<char>, Seq<char>)> {
    if has_key(s, key) {
        s.update(position_of(s, key), (key, value))
    } else {
        s.push((key, value))
    }
}

/// The address stored for `key`, if any.
pub open spec fn value_of(s: Seq<(Seq<char>, Seq<char>)>, key: Seq<char>) -> Option<Seq<char>> {
    if has_key(s, key) {
        Some(s[position_of(s, key)].1)
    } else {
        None
    }
}

/// Page `page` of `s` with `size` entries per page: the entries at
/// positions `[page * size, page * size + size)`, clipped to `s`.
pub open spec fn page_of<A>(s: Seq<A>, page: int, size: int) -> Seq<A> {
    let start = page * size;
    if start >= s.len() {
        Seq::empty()
    } else if start + size <= s.len() {
        s.subrange(start, start + size)
    } else {
        s.subrange(start, s.len() as int)
    }
}

/// Inserting keeps identifiers unique and maps `key` to `value`.
pub proof fn lemma_inserted_unique(s: Seq<(Seq<char>, Seq<char>)>, key: Seq<char>, value: Seq<char>)
    requires
        keys_unique(s),
    ensures
        keys_unique(inserted(s, key, value)),
        value_of(inserted(s, key, value), key) == Some(value),
{
    let t = inserted(s, key, value);
    let p = if has_key(s, key) {
        position_of(s, key)
    } else {
        s.len() as int
    };
    assert(t[p].0 == key);
    assert forall|i: int, j: int| 0 <= i < j < t.len() implies t[i].0 != t[j].0 by {
        if i != p && j != p {
            assert(t[i] == s[i] && t[j] == s[j]);
        } else if i == p {
            assert(t[j] == s[j]);
        } else {
            assert(t[i] == s[i]);
        }
    }
    assert(has_key(t, key));
}

/// Inserting under `key` leaves the address of every other identifier alone.
pub proof fn lemma_inserted_other(
    s: Seq<(Seq<char>, Seq<char>)>,
    key: Seq<char>,
    value: Seq<char>,
    other: Seq<char>,
)
    requires
        keys_unique(s),
        key != other,
    ensures
        value_of(inserted(s, key, value), other) == value_of(s, other),
{
    let t = inserted(s, key, value);
    lemma_inserted_unique(s, key, value);
    assert forall|i: int| 0 <= i < t.len() && t[i].0 == other implies i < s.len() && t[i] == s[i] by {
        if has_key(s, key) {
            assert(i != position_of(s, key));
        }
    }
    if has_key(s, other) {
        let p = position_of(s, other);
        if has_key(s, key) {
            assert(p != position_of(s, key));
        }
        assert(t[p] == s[p]);
        assert(has_key(t, other));
    } else {
        if has_key(t, other) {
            let q = position_of(t, other);
            assert(s[q].0 == other);
        }
    }
}

pub struct OwnershipIndex {
    entries: Vec<(String, String)>,
}

impl View for OwnershipIndex {
    type V = Seq<(Seq<char>, Seq<char>)>;

    closed spec fn view(&self) -> Seq<(Seq<char>, Seq<char>)> {
        entries_view(self.entries@)
    }
}

impl OwnershipIndex {
    /// Each identifier has at most one entry.
    pub open spec fn wf(&self) -> bool {
        keys_unique(self@)
    }

    pub fn new() -> (r: OwnershipIndex)
        ensures
            r@ == Seq::<(Seq<char>, Seq<char>)>::empty(),
            r.wf(),
    {
        let r = OwnershipIndex { entries: Vec::new() };
        assert(r@ =~= Seq::<(Seq<char>, Seq<char>)>::empty());
        r
    }

    /// The number of entries.
    pub fn len(&self) -> (r: usize)
        ensures
            r == self@.len(),
    {
        self.entries.len()
    }

    /// Maps `key` to `value`, overwriting an existing entry for `key` in
    /// place and appending a new one otherwise.
    pub fn insert(&mut self, key: &String, value: &String)
        requires
            old(self).wf(),
        ensures
            final(self).wf(),
            final(self)@ == inserted(old(self)@, key@, value@),
    {
        let ghost s = self@;
        let n = self.entries.len();
        let mut i: usize = 0;
        while i < n
            invariant
                n == self.entries.len(),
                self@ == s,
                s == old(self)@,
                keys_unique(s),
                i <= n,
                forall|j: int| 0 <= j < i ==> s[j].0 != key@,
            decreases n - i,
        {
            if self.entries[i].0 == *key {
                assert(s[i as int].0 == key@);
                assert(has_key(s, key@));
                assert(position_of(s, key@) == i as int);
                self.entries.set(i, (key.clone(), value.clone()));
                assert(self@ =~= s.update(i as int, (key@, value@)));
                assert(self@ == inserted(s, key@, value@));
                assert forall|a: int, b: int| 0 <= a < b < self@.len() implies self@[a].0
                    != self@[b].0 by {
                    if a != i && b != i {
                        assert(s[a].0 != s[b].0);
                    }
                }
                return;
            }
            i = i + 1;
        }
        assert(!has_key(s, key@));
        let k = key.clone();
        let v = value.clone();
        self.entries.push((k, v));
        assert(self@ =~= s.push((key@, value@)));
    }

    /// The address stored for `key`, if any.
    pub fn get(&self, key: &String) -> (r: Option<String>)
        requires
            self.wf(),
        ensures
            r matches Some(v) ==> value_of(self@, key@) == Some(v@),
            r is None ==> value_of(self@, key@) is None,
    {
        let n = self.entries.len();
        let mut i: usize = 0;
        while i < n
            invariant
                n == self.entries.len(),
                keys_unique(self@),
                i <= n,
                forall|j: int| 0 <= j < i ==> self@[j].0 != key@,
            decreases n - i,
        {
            if self.entries[i].0 == *key {
                assert(self@[i as int].0 == key@);
                assert(position_of(self@, key@) == i as int);
                return Some(self.entries[i].1.clone());
            }
            i = i + 1;
        }
        None
    }

    /// Page `start_page` of the entries in insertion order, `page_size`
    /// entries per page; empty past the end and for a page size of zero.
    pub fn paging(&self, start_page: u32, page_size: u32) -> (r: Vec<(String, String)>)
        ensures
            entries_view(r@) == page_of(
                self@,
                start_page as int,
                page_size as int,
            ),
    {
        let ghost s = self@;
        let mut out: Vec<(String, String)> = Vec::new();
        assert(start_page as int * page_size as int <= 0xffff_ffff * 0xffff_ffff) by (nonlinear_arith)
            requires
                start_page <= 0xffff_ffff,
                page_size <= 0xffff_ffff,
        ;
        let start: u64 = start_page as u64 * page_size as u64;
        let len: u64 = self.entries.len() as u64;
        if start >= len {
            assert(entries_view(out@) =~= page_of(
                s,
                start_page as int,
                page_size as int,
            ));
            return out;
        }
        let end: u64 = if start + (page_size as u64) <= len {
            start + page_size as u64
        } else {
            len
        };
        let mut i: usize = start as usize;
        while i < end as usize
            invariant
                s == self@,
                start < len,
                len == self.entries.len(),
                end <= len,
                start <= i <= end,
                entries_view(out@) =~= s.subrange(
                    start as int,
                    i as int,
                ),
            decreases end - i,
        {
            let e = &self.entries[i];
            let ghost before = out@;
            let k = e.0.clone();
            let v = e.1.clone();
            out.push((k, v));
            proof {
                assert(s[i as int] == entry_view(self.entries@[i as int]));
                assert(out@ == before.push((k, v)));
                assert(entries_view(out@) =~= entries_view(before).push(entry_view((k, v))));
                assert(entry_view((k, v)) == s[i as int]);
                assert(entries_view(out@) =~= s.subrange(
                    start as int,
                    i + 1,
                ));
            }
            i = i + 1;
        }
        out
    }
}

} // verus!
