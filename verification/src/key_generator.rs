//! Hands out 16-bit local keys. Keys are issued in rising order; a key that
//! was released is issued again only once no fresh key is left. A key is in
//! use from the moment it is issued until it is released.

use vstd::prelude::*;

verus! {

/// The most keys that can be in use at once.
pub const MAX_KEYS: u16 = 65535;

/// The abstract state of a key generator.
pub struct KeyPool {
    /// The number of fresh keys issued so far: the keys below it were
    /// issued at least once.
    pub issued: u16,
    /// The keys that were released and not issued again, oldest first.
    pub released: Seq<u16>,
}

/// Whether `key` is in use.
pub open spec fn in_use(p: KeyPool, key: u16) -> bool {
    key < p.issued && !p.released.contains(key)
}

/// The number of keys in use.
pub open spec fn live_count(p: KeyPool) -> int {
    p.issued - p.released.len()
}

/// The released keys were issued and none occurs twice.
pub open spec fn valid_pool(p: KeyPool) -> bool {
    &&& p.issued <= MAX_KEYS
    &&& p.released.no_duplicates()
    &&& forall|i: int| 0 <= i < p.released.len() ==> #[trigger] p.released[i] < p.issued
}

/// The pool after a key has been issued, with the key; none where every
/// key is in use.
pub open spec fn issued_from(p: KeyPool) -> Option<(KeyPool, u16)> {
    if p.issued < MAX_KEYS {
        Some((KeyPool { issued: (p.issued + 1) as u16, released: p.released }, p.issued))
    } else if p.released.len() > 0 {
        Some((KeyPool { issued: p.issued, released: p.released.drop_first() }, p.released[0]))
    } else {
        None
    }
}

/// The pool after `key` has been released; a key that is not in use
/// changes nothing.
pub open spec fn released_to(p: KeyPool, key: u16) -> KeyPool {
    if in_use(p, key) {
        KeyPool { issued: p.issued, released: p.released.push(key) }
    } else {
        p
    }
}

/// A key that is issued was not in use, is in use afterwards, and no other
/// key changes; a key is refused exactly when 65535 keys are in use.
pub proof fn lemma_issue_is_fresh(p: KeyPool)
    requires
        valid_pool(p),
    ensures
        issued_from(p) is None <==> live_count(p) >= MAX_KEYS,
        issued_from(p) matches Some((q, key)) ==> valid_pool(q) && !in_use(p, key) && in_use(
            q,
            key,
        ) && live_count(q) == live_count(p) + 1 && forall|k: u16|
            k != key ==> in_use(q, k) == in_use(p, k),
{
    if p.issued < MAX_KEYS {
        let q = KeyPool { issued: (p.issued + 1) as u16, released: p.released };
        assert(!p.released.contains(p.issued)) by {
            if p.released.contains(p.issued) {
                let i = choose|i: int| 0 <= i < p.released.len() && p.released[i] == p.issued;
                assert(p.released[i] < p.issued);
            }
        }
    } else if p.released.len() > 0 {
        let key = p.released[0];
        let rest = p.released.drop_first();
        let q = KeyPool { issued: p.issued, released: rest };
        assert(p.released.contains(key));
        assert forall|k: u16| rest.contains(k) <==> (k != key && p.released.contains(k)) by {
            if rest.contains(k) {
                let i = choose|i: int| 0 <= i < rest.len() && rest[i] == k;
                assert(p.released[i + 1] == k);
            }
            if k != key && p.released.contains(k) {
                let i = choose|i: int| 0 <= i < p.released.len() && p.released[i] == k;
                assert(rest[i - 1] == k);
            }
        }
        assert forall|i: int, j: int| 0 <= i < rest.len() && 0 <= j < rest.len() && i != j implies rest[i]
            != rest[j] by {
            assert(rest[i] == p.released[i + 1] && rest[j] == p.released[j + 1]);
        }
        assert forall|i: int| 0 <= i < rest.len() implies #[trigger] rest[i] < q.issued by {
            assert(rest[i] == p.released[i + 1]);
        }
    } else {
    }
}

/// A key that is released is no longer in use, and no other key changes.
pub proof fn lemma_release(p: KeyPool, key: u16)
    requires
        valid_pool(p),
    ensures
        valid_pool(released_to(p, key)),
        !in_use(released_to(p, key), key),
        forall|k: u16| k != key ==> in_use(released_to(p, key), k) == in_use(p, k),
        in_use(p, key) ==> live_count(released_to(p, key)) == live_count(p) - 1,
{
    if in_use(p, key) {
        let q = released_to(p, key);
        assert(q.released[p.released.len() as int] == key);
        assert forall|k: u16| q.released.contains(k) <==> (k == key || p.released.contains(k)) by {
            if q.released.contains(k) {
                let i = choose|i: int| 0 <= i < q.released.len() && q.released[i] == k;
                if i < p.released.len() {
                    assert(p.released[i] == k);
                }
            }
            if p.released.contains(k) {
                let i = choose|i: int| 0 <= i < p.released.len() && p.released[i] == k;
                assert(q.released[i] == k);
            }
        }
        assert forall|i: int, j: int|
            0 <= i < q.released.len() && 0 <= j < q.released.len() && i != j implies q.released[i]
            != q.released[j] by {
            if i < p.released.len() && j < p.released.len() {
                assert(q.released[i] == p.released[i] && q.released[j] == p.released[j]);
            } else if i < p.released.len() {
                assert(p.released.contains(q.released[i]));
            } else {
                assert(p.released.contains(q.released[j]));
            }
        }
    }
}

/// Hands out local keys.
pub struct KeyGenerator {
    next_new_key: u16,
    recycled_keys: Vec<u16>,
}

impl View for KeyGenerator {
    type V = KeyPool;

    closed spec fn view(&self) -> KeyPool {
        KeyPool { issued: self.next_new_key, released: self.recycled_keys@ }
    }
}

impl KeyGenerator {
    pub open spec fn wf(&self) -> bool {
        valid_pool(self@)
    }

    /// A generator with no key in use.
    pub fn new() -> (g: Self)
        ensures
            g.wf(),
            g@ == (KeyPool { issued: 0, released: Seq::empty() }),
    {
        KeyGenerator { next_new_key: 0, recycled_keys: Vec::new() }
    }

    /// Whether `key` is in use.
    pub fn is_in_use(&self, key: u16) -> (b: bool)
        ensures
            b == in_use(self@, key),
    {
        if key >= self.next_new_key {
            return false;
        }
        let mut i: usize = 0;
        while i < self.recycled_keys.len()
            invariant
                i <= self.recycled_keys@.len(),
                forall|j: int| 0 <= j < i ==> self.recycled_keys@[j] != key,
            decreases self.recycled_keys@.len() - i,
        {
            if self.recycled_keys[i] == key {
                return false;
            }
            i += 1;
        }
        true
    }

    /// Issues a key that is not in use; none where 65535 keys are in use.
    pub fn get(&mut self) -> (r: Option<u16>)
        requires
            old(self).wf(),
        ensures
            final(self).wf(),
            match issued_from(old(self)@) {
                Some((pool, key)) => r == Some(key) && final(self)@ == pool,
                None => r is None && final(self)@ == old(self)@,
            },
            r matches Some(key) ==> !in_use(old(self)@, key) && in_use(final(self)@, key),
            r is None <==> live_count(old(self)@) >= MAX_KEYS,
    {
        proof {
            lemma_issue_is_fresh(self@);
        }
        if self.next_new_key < MAX_KEYS {
            let key = self.next_new_key;
            self.next_new_key = key + 1;
            Some(key)
        } else if self.recycled_keys.len() > 0 {
            let key = self.recycled_keys.remove(0);
            assert(self.recycled_keys@ =~= old(self).recycled_keys@.drop_first());
            Some(key)
        } else {
            None
        }
    }

    /// Releases `key`; it may be issued again afterwards.
    pub fn recycle_key(&mut self, key: u16)
        requires
            old(self).wf(),
        ensures
            final(self).wf(),
            final(self)@ == released_to(old(self)@, key),
            !in_use(final(self)@, key),
    {
        proof {
            lemma_release(self@, key);
        }
        if self.is_in_use(key) {
            self.recycled_keys.push(key);
        }
    }
}

} // verus!
