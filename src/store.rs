//! An in-memory credential store with the contract of the OS credential
//! manager: records filed under a lookup target, written by the store in
//! its current format, read back raw by the migration.
use vstd::prelude::*;
use crate::encoding::{
    current_blob, current_text, decode_current, encode_current, is_legacy_blob,
};
use crate::error::CredentialError;
use crate::migration::legacy_text;
use crate::target::{lookup_target, target_of, target_string, wide_target_ok};
use vstd::utf8::decode_utf8;

verus! {

/// What reading the key from a store with these records gives.
pub open spec fn get_outcome(m: Map<Seq<char>, Seq<u8>>, k: Seq<char>) -> Result<
    Seq<char>,
    CredentialError,
> {
    if !m.contains_key(k) {
        Err(CredentialError::NotFound)
    } else {
        match current_text(m[k]) {
            Some(t) => Ok(t),
            None => Err(CredentialError::Decode),
        }
    }
}

/// What migrating the key does to a store with these records: the result,
/// and the records afterwards.
pub open spec fn migrate_outcome(
    m: Map<Seq<char>, Seq<u8>>,
    service: Seq<char>,
    account: Seq<char>,
) -> (Result<bool, CredentialError>, Map<Seq<char>, Seq<u8>>) {
    let k = target_of(service, account);
    if !wide_target_ok(k) {
        (Err(CredentialError::InvalidTarget), m)
    } else if m.contains_key(k) && is_legacy_blob(m[k]) {
        (Ok(true), m.insert(k, current_blob(decode_utf8(m[k]))))
    } else {
        (Ok(false), m)
    }
}

struct Entry {
    target: String,
    blob: Vec<u8>,
}

/// Records keyed by lookup target, each target at most once.
pub struct MemoryStore {
    entries: Vec<Entry>,
}

impl View for MemoryStore {
    type V = Map<Seq<char>, Seq<u8>>;

    closed spec fn view(&self) -> Map<Seq<char>, Seq<u8>> {
        Map::new(
            |k: Seq<char>| exists|i: int| 0 <= i < self.entries.len() && self.entries[i].target@ == k,
            |k: Seq<char>|
                self.entries[choose|i: int|
                    0 <= i < self.entries.len() && self.entries[i].target@ == k].blob@,
        )
    }
}

impl MemoryStore {
    /// No target is filed twice.
    pub closed spec fn wf(&self) -> bool {
        forall|i: int, j: int|
            0 <= i < j < self.entries.len() ==> self.entries[i].target@ != self.entries[j].target@
    }

    proof fn lemma_entry(&self, i: int)
        requires
            self.wf(),
            0 <= i < self.entries.len(),
        ensures
            self@.contains_key(self.entries[i].target@),
            self@[self.entries[i].target@] == self.entries[i].blob@,
    {
        let k = self.entries[i].target@;
        assert(0 <= i < self.entries.len() && self.entries[i].target@ == k);
        let j = choose|j: int| 0 <= j < self.entries.len() && self.entries[j].target@ == k;
        assert(j == i);
    }

    proof fn lemma_all_entries(&self)
        requires
            self.wf(),
        ensures
            forall|i: int|
                0 <= i < self.entries.len() ==> #[trigger] self@.contains_key(
                    self.entries[i].target@,
                ) && self@[self.entries[i].target@] == self.entries[i].blob@,
            forall|k: Seq<char>|
                #[trigger] self@.contains_key(k) ==> exists|i: int|
                    0 <= i < self.entries.len() && self.entries[i].target@ == k,
    {
        assert forall|i: int| 0 <= i < self.entries.len() implies #[trigger] self@.contains_key(
            self.entries[i].target@,
        ) && self@[self.entries[i].target@] == self.entries[i].blob@ by {
            self.lemma_entry(i);
        }
    }

    /// An empty store.
    pub fn new() -> (r: MemoryStore)
        ensures
            r.wf(),
            r@ == Map::<Seq<char>, Seq<u8>>::empty(),
    {
        let r = MemoryStore { entries: Vec::new() };
        assert(r@ =~= Map::<Seq<char>, Seq<u8>>::empty());
        r
    }

    fn find(&self, target: &String) -> (r: Option<usize>)
        requires
            self.wf(),
        ensures
            match r {
                Some(i) => i < self.entries.len() && self.entries[i as int].target@ == target@,
                None => !self@.contains_key(target@),
            },
    {
        let mut i: usize = 0;
        while i < self.entries.len()
            invariant
                0 <= i <= self.entries.len(),
                forall|j: int| 0 <= j < i ==> self.entries[j].target@ != target@,
            decreases self.entries.len() - i,
        {
            if self.entries[i].target == *target {
                return Some(i);
            }
            i = i + 1;
        }
        None
    }

    fn put(&mut self, target: String, blob: Vec<u8>)
        requires
            old(self).wf(),
        ensures
            final(self).wf(),
            final(self)@ == old(self)@.insert(target@, blob@),
    {
        let ghost k = target@;
        let ghost b = blob@;
        let ghost before = self@;
        proof {
            self.lemma_all_entries();
        }
        match self.find(&target) {
            Some(i) => {
                let ghost old_entries = self.entries@;
                self.entries.set(i, Entry { target, blob });
                proof {
                    assert(self.wf()) by {
                        assert forall|x: int, y: int|
                            0 <= x < y < self.entries.len() implies self.entries[x].target@
                            != self.entries[y].target@ by {
                            assert(old_entries[x].target@ == self.entries[x].target@);
                            assert(old_entries[y].target@ == self.entries[y].target@);
                        }
                    }
                    self.lemma_entry(i as int);
                    self.lemma_all_entries();
                    assert forall|q: Seq<char>| #[trigger] before.contains_key(q) implies self@.contains_key(q) by {
                        let j = choose|j: int| 0 <= j < old_entries.len() && old_entries[j].target@ == q;
                        assert(self.entries[j].target@ == q);
                    }
                    assert forall|q: Seq<char>| #[trigger] self@.contains_key(q) && q != k implies before.contains_key(q) && self@[q] == before[q] by {
                        let j = choose|j: int| 0 <= j < self.entries.len() && self.entries[j].target@ == q;
                        assert(old_entries[j] == self.entries[j]);
                    }
                    assert(self@ =~= before.insert(k, b));
                }
            },
            None => {
                let ghost old_entries = self.entries@;
                self.entries.push(Entry { target, blob });
                proof {
                    let n = old_entries.len() as int;
                    assert(self.entries[n].target@ == k);
                    assert(self.wf()) by {
                        assert forall|x: int, y: int|
                            0 <= x < y < self.entries.len() implies self.entries[x].target@
                            != self.entries[y].target@ by {
                            if y == n {
                                assert(old_entries[x] == self.entries[x]);
                            } else {
                                assert(old_entries[x] == self.entries[x]);
                                assert(old_entries[y] == self.entries[y]);
                            }
                        }
                    }
                    self.lemma_entry(n);
                    self.lemma_all_entries();
                    assert forall|q: Seq<char>| #[trigger] before.contains_key(q) implies self@.contains_key(q) by {
                        let j = choose|j: int| 0 <= j < old_entries.len() && old_entries[j].target@ == q;
                        assert(self.entries[j] == old_entries[j]);
                    }
                    assert forall|q: Seq<char>| #[trigger] self@.contains_key(q) && q != k implies before.contains_key(q) && self@[q] == before[q] by {
                        let j = choose|j: int| 0 <= j < self.entries.len() && self.entries[j].target@ == q;
                        assert(old_entries[j] == self.entries[j]);
                    }
                    assert(self@ =~= before.insert(k, b));
                }
            },
        }
    }

    fn take(&mut self, target: &String) -> (r: bool)
        requires
            old(self).wf(),
        ensures
            final(self).wf(),
            r == old(self)@.contains_key(target@),
            final(self)@ == old(self)@.remove(target@),
    {
        let ghost k = target@;
        let ghost before = self@;
        proof {
            self.lemma_all_entries();
        }
        match self.find(target) {
            None => {
                assert(self@ =~= before.remove(k));
                false
            },
            Some(i) => {
                let ghost old_entries = self.entries@;
                proof {
                    self.lemma_entry(i as int);
                }
                let _ = self.entries.remove(i);
                proof {
                    assert forall|x: int| 0 <= x < self.entries.len() implies #[trigger] self.entries[x]
                        == (if x < i { old_entries[x] } else { old_entries[x + 1] }) by {}
                    assert(self.wf()) by {
                        assert forall|x: int, y: int|
                            0 <= x < y < self.entries.len() implies self.entries[x].target@
                            != self.entries[y].target@ by {
                            let _ = self.entries[x];
                            let _ = self.entries[y];
                        }
                    }
                    self.lemma_all_entries();
                    assert forall|q: Seq<char>| #[trigger] before.contains_key(q) && q != k implies self@.contains_key(q) && self@[q] == before[q] by {
                        let j = choose|j: int| 0 <= j < old_entries.len() && old_entries[j].target@ == q;
                        if j < i {
                            assert(self.entries[j] == old_entries[j]);
                        } else {
                            assert(j != i);
                            assert(self.entries[j - 1] == old_entries[j]);
                        }
                    }
                    assert forall|q: Seq<char>| #[trigger] self@.contains_key(q) implies q != k && before.contains_key(q) by {
                        let j = choose|j: int| 0 <= j < self.entries.len() && self.entries[j].target@ == q;
                        if j < i {
                            assert(self.entries[j] == old_entries[j]);
                        } else {
                            assert(self.entries[j] == old_entries[j + 1]);
                        }
                    }
                    assert(self@ =~= before.remove(k));
                }
                true
            },
        }
    }

    /// The raw blob filed under the key, as the OS read returns it, without
    /// any decoding.
    pub fn read_raw(&self, service: &str, account: &str) -> (r: Option<Vec<u8>>)
        requires
            self.wf(),
        ensures
            match r {
                Some(b) => self@.contains_key(target_of(service@, account@)) && b@ == self@[target_of(
                    service@,
                    account@,
                )],
                None => !self@.contains_key(target_of(service@, account@)),
            },
    {
        let target = target_string(service, account);
        match self.find(&target) {
            Some(i) => {
                proof {
                    self.lemma_entry(i as int);
                }
                Some(self.entries[i].blob.clone())
            },
            None => None,
        }
    }

    /// Files a blob as it stands under the key, as a tool that writes
    /// 8-bit text would.
    pub fn write_raw(&mut self, service: &str, account: &str, blob: Vec<u8>)
        requires
            old(self).wf(),
        ensures
            final(self).wf(),
            final(self)@ == old(self)@.insert(target_of(service@, account@), blob@),
    {
        let target = target_string(service, account);
        self.put(target, blob);
    }

    /// The in-memory store can always be reached.
    pub fn is_available(&self) -> (r: bool)
        ensures
            r,
    {
        true
    }

    /// The password filed under the key, decoded from the store's format.
    pub fn get_password(&self, service: &str, account: &str) -> (r: Result<String, CredentialError>)
        requires
            self.wf(),
        ensures
            match r {
                Ok(s) => get_outcome(self@, target_of(service@, account@)) == Ok::<
                    Seq<char>,
                    CredentialError,
                >(s@),
                Err(e) => get_outcome(self@, target_of(service@, account@)) == Err::<
                    Seq<char>,
                    CredentialError,
                >(e),
            },
    {
        match self.read_raw(service, account) {
            None => Err(CredentialError::NotFound),
            Some(b) => match decode_current(b.as_slice()) {
                Some(s) => Ok(s),
                None => Err(CredentialError::Decode),
            },
        }
    }

    /// Files the password under the key in the store's format, adding the
    /// record or replacing it.
    pub fn set_password(&mut self, service: &str, account: &str, password: &str)
        requires
            old(self).wf(),
        ensures
            final(self).wf(),
            final(self)@ == old(self)@.insert(
                target_of(service@, account@),
                current_blob(password@),
            ),
    {
        let blob = encode_current(password);
        self.write_raw(service, account, blob);
    }

    /// Removes the record filed under the key.
    pub fn delete_password(&mut self, service: &str, account: &str) -> (r: Result<
        (),
        CredentialError,
    >)
        requires
            old(self).wf(),
        ensures
            final(self).wf(),
            final(self)@ == old(self)@.remove(target_of(service@, account@)),
            r is Ok <==> old(self)@.contains_key(target_of(service@, account@)),
            r is Err ==> r == Err::<(), CredentialError>(CredentialError::NotFound),
    {
        let target = target_string(service, account);
        if self.take(&target) {
            Ok(())
        } else {
            Err(CredentialError::NotFound)
        }
    }

    /// Rewrites in the store's format a record that the legacy tool left as
    /// 8-bit text. Reports whether it rewrote the record; a missing record,
    /// one already in the current format, and one that cannot be told apart
    /// from it are left as they are.
    pub fn migrate_keytar_password(&mut self, service: &str, account: &str) -> (r: Result<
        bool,
        CredentialError,
    >)
        requires
            old(self).wf(),
        ensures
            final(self).wf(),
            (r, final(self)@) == migrate_outcome(old(self)@, service@, account@),
    {
        match lookup_target(service, account) {
            Err(e) => {
                return Err(e);
            },
            Ok(_) => {},
        }
        let blob = match self.read_raw(service, account) {
            None => {
                return Ok(false);
            },
            Some(b) => b,
        };
        match legacy_text(blob) {
            None => Ok(false),
            Some(text) => {
                self.set_password(service, account, text.as_str());
                Ok(true)
            },
        }
    }
}

} // verus!
