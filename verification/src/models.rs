//! The plaintext logical model of a vault: an ordered list of entries plus
//! the salt the vault was created with.

use vstd::prelude::*;

verus! {

/// The number of bytes of a vault salt.
pub const SALT_LEN: usize = 16;

/// The number of password-history records an entry keeps at most.
pub const HISTORY_CAP: usize = 5;

/// One record of an entry's password-change history.
pub struct PasswordHistory {
    pub password: String,
    pub changed_at: u64,
}

/// One named secret of a vault.
pub struct Entry {
    /// Unique within a vault; immutable; the join key of editing operations.
    pub id: String,
    /// Name.
    pub n: String,
    /// Username.
    pub u: String,
    /// Password.
    pub p: String,
    /// Optional URL.
    pub url: Option<String>,
    /// Optional notes.
    pub nt: Option<String>,
    /// Creation timestamp, seconds since the Unix epoch.
    pub t: u64,
    /// Tags, used for filtering.
    pub tags: Vec<String>,
    /// Bounded password-change history, oldest first.
    pub history: Vec<PasswordHistory>,
    /// Timestamp of the last modification.
    pub last_modified: u64,
}

/// A vault: its entries and the salt it was created with.
pub struct Vault {
    /// The entries, in insertion order.
    pub e: Vec<Entry>,
    /// The salt, `SALT_LEN` bytes, generated once at vault creation.
    pub s: Vec<u8>,
}

/// The mathematical model of a history record.
pub ghost struct HistoryView {
    pub password: Seq<char>,
    pub changed_at: u64,
}

/// The mathematical model of an entry.
pub ghost struct EntryView {
    pub id: Seq<char>,
    pub n: Seq<char>,
    pub u: Seq<char>,
    pub p: Seq<char>,
    pub url: Option<Seq<char>>,
    pub nt: Option<Seq<char>>,
    pub t: u64,
    pub tags: Seq<Seq<char>>,
    pub history: Seq<HistoryView>,
    pub last_modified: u64,
}

/// The mathematical model of a vault.
pub ghost struct VaultView {
    pub e: Seq<EntryView>,
    pub s: Seq<u8>,
}

impl View for PasswordHistory {
    type V = HistoryView;

    open spec fn view(&self) -> HistoryView {
        HistoryView { password: self.password@, changed_at: self.changed_at }
    }
}

impl DeepView for PasswordHistory {
    type V = HistoryView;

    open spec fn deep_view(&self) -> HistoryView {
        self@
    }
}

impl View for Entry {
    type V = EntryView;

    open spec fn view(&self) -> EntryView {
        EntryView {
            id: self.id@,
            n: self.n@,
            u: self.u@,
            p: self.p@,
            url: match self.url {
                Some(u) => Some(u@),
                None => None,
            },
            nt: match self.nt {
                Some(n) => Some(n@),
                None => None,
            },
            t: self.t,
            tags: self.tags.deep_view(),
            history: self.history.deep_view(),
            last_modified: self.last_modified,
        }
    }
}

impl DeepView for Entry {
    type V = EntryView;

    open spec fn deep_view(&self) -> EntryView {
        self@
    }
}

impl View for Vault {
    type V = VaultView;

    open spec fn view(&self) -> VaultView {
        VaultView { e: self.e.deep_view(), s: self.s@ }
    }
}

impl DeepView for Vault {
    type V = VaultView;

    open spec fn deep_view(&self) -> VaultView {
        self@
    }
}

impl VaultView {
    /// A well-formed vault carries a salt of exactly `SALT_LEN` bytes.
    pub open spec fn wf(self) -> bool {
        self.s.len() == SALT_LEN
    }
}

impl Clone for PasswordHistory {
    fn clone(&self) -> (r: Self)
        ensures
            r@ == self@,
    {
        PasswordHistory { password: self.password.clone(), changed_at: self.changed_at }
    }
}

impl Clone for Entry {
    fn clone(&self) -> (r: Self)
        ensures
            r@ == self@,
    {
        Entry {
            id: self.id.clone(),
            n: self.n.clone(),
            u: self.u.clone(),
            p: self.p.clone(),
            url: match &self.url {
                Some(u) => Some(u.clone()),
                None => None,
            },
            nt: match &self.nt {
                Some(n) => Some(n.clone()),
                None => None,
            },
            t: self.t,
            tags: clone_string_vec(&self.tags),
            history: clone_history_vec(&self.history),
            last_modified: self.last_modified,
        }
    }
}

impl Clone for Vault {
    fn clone(&self) -> (r: Self)
        ensures
            r@ == self@,
    {
        Vault { e: clone_entry_vec(&self.e), s: clone_byte_vec(&self.s) }
    }
}

/// Clones a vector of strings, keeping the sequence of views.
pub fn clone_string_vec(v: &Vec<String>) -> (r: Vec<String>)
    ensures
        r.deep_view() == v.deep_view(),
{
    let mut r: Vec<String> = Vec::new();
    let mut i: usize = 0;
    proof {
        assert(r.deep_view() =~= v.deep_view().take(0));
    }
    while i < v.len()
        invariant
            i <= v.len(),
            r.deep_view() =~= v.deep_view().take(i as int),
        decreases v.len() - i,
    {
        let x = v[i].clone();
        proof {
            assert(x@ == v.deep_view()[i as int]);
        }
        let ghost pre = r.deep_view();
        proof {
            assert(pre.len() == i);
        }
        r.push(x);
        proof {
            assert(r@.len() == i + 1);
            assert(r.deep_view().len() == i + 1);
            assert(r.deep_view()[i as int] == v.deep_view()[i as int]);
            assert(forall|j: int| 0 <= j < i ==> #[trigger] r.deep_view()[j] == pre[j]);
        }
        i = i + 1;
        proof {
            assert(r.deep_view() =~= v.deep_view().take(i as int));
        }
    }
    proof {
        assert(v.deep_view().take(v.len() as int) =~= v.deep_view());
    }
    r
}

/// Clones a vector of bytes.
pub fn clone_byte_vec(v: &Vec<u8>) -> (r: Vec<u8>)
    ensures
        r@ == v@,
{
    let mut r: Vec<u8> = Vec::new();
    let mut i: usize = 0;
    while i < v.len()
        invariant
            i <= v.len(),
            r@ == v@.take(i as int),
        decreases v.len() - i,
    {
        r.push(v[i]);
        i = i + 1;
        proof {
            assert(r@ =~= v@.take(i as int));
        }
    }
    proof {
        assert(v@.take(v.len() as int) =~= v@);
    }
    r
}

/// Clones a vector of history records, keeping the sequence of views.
pub fn clone_history_vec(v: &Vec<PasswordHistory>) -> (r: Vec<PasswordHistory>)
    ensures
        r.deep_view() == v.deep_view(),
{
    let mut r: Vec<PasswordHistory> = Vec::new();
    let mut i: usize = 0;
    proof {
        assert(r.deep_view() =~= v.deep_view().take(0));
    }
    while i < v.len()
        invariant
            i <= v.len(),
            r.deep_view() =~= v.deep_view().take(i as int),
        decreases v.len() - i,
    {
        let x = v[i].clone();
        proof {
            assert(x@ == v.deep_view()[i as int]);
        }
        let ghost pre = r.deep_view();
        proof {
            assert(pre.len() == i);
        }
        r.push(x);
        proof {
            assert(r@.len() == i + 1);
            assert(r.deep_view().len() == i + 1);
            assert(r.deep_view()[i as int] == v.deep_view()[i as int]);
            assert(forall|j: int| 0 <= j < i ==> #[trigger] r.deep_view()[j] == pre[j]);
        }
        i = i + 1;
        proof {
            assert(r.deep_view() =~= v.deep_view().take(i as int));
        }
    }
    proof {
        assert(v.deep_view().take(v.len() as int) =~= v.deep_view());
    }
    r
}

/// Clones a vector of entries, keeping the sequence of views.
pub fn clone_entry_vec(v: &Vec<Entry>) -> (r: Vec<Entry>)
    ensures
        r.deep_view() == v.deep_view(),
{
    let mut r: Vec<Entry> = Vec::new();
    let mut i: usize = 0;
    proof {
        assert(r.deep_view() =~= v.deep_view().take(0));
    }
    while i < v.len()
        invariant
            i <= v.len(),
            r.deep_view() =~= v.deep_view().take(i as int),
        decreases v.len() - i,
    {
        let x = v[i].clone();
        proof {
            assert(x@ == v.deep_view()[i as int]);
        }
        let ghost pre = r.deep_view();
        proof {
            assert(pre.len() == i);
        }
        r.push(x);
        proof {
            assert(r@.len() == i + 1);
            assert(r.deep_view().len() == i + 1);
            assert(r.deep_view()[i as int] == v.deep_view()[i as int]);
            assert(forall|j: int| 0 <= j < i ==> #[trigger] r.deep_view()[j] == pre[j]);
        }
        i = i + 1;
        proof {
            assert(r.deep_view() =~= v.deep_view().take(i as int));
        }
    }
    proof {
        assert(v.deep_view().take(v.len() as int) =~= v.deep_view());
    }
    r
}

impl Vault {
    /// A fresh, empty vault over the given salt.
    pub fn new(s: Vec<u8>) -> (r: Self)
        ensures
            r@.e == Seq::<EntryView>::empty(),
            r@.s == s@,
    {
        let r = Vault { e: Vec::new(), s };
        proof {
            assert(r@.e =~= Seq::<EntryView>::empty());
        }
        r
    }
}

} // verus!
