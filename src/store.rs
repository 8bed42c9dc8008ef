//! The account store: named accounts with unique names, and the name of the
//! active account, if any.
use vstd::prelude::*;
use vstd::string::StringExecFns;

verus! {

/// The errors that account operations report.
#[derive(PartialEq, Eq, Structural, Debug, Clone, Copy)]
pub enum ManagerError {
    /// An account with this name is already stored.
    DuplicateIdentity,
    /// The email address does not have the shape of an address.
    InvalidEmail,
    /// No account with this name is stored.
    UnknownIdentity,
    /// The key-generation tool did not succeed.
    KeyGenerationFailed,
}

/// One identity: its name, contact address, key file name, host and an
/// optional description.
#[derive(Debug, Clone)]
pub struct SshAccount {
    pub name: String,
    pub email: String,
    pub key_file: String,
    pub host: String,
    pub description: Option<String>,
}

/// An account as plain character sequences.
pub ghost struct AccountView {
    pub name: Seq<char>,
    pub email: Seq<char>,
    pub key_file: Seq<char>,
    pub host: Seq<char>,
    pub description: Option<Seq<char>>,
}

pub open spec fn opt_view(o: Option<String>) -> Option<Seq<char>> {
    match o {
        Some(s) => Some(s@),
        None => None,
    }
}

impl View for SshAccount {
    type V = AccountView;

    open spec fn view(&self) -> AccountView {
        AccountView {
            name: self.name@,
            email: self.email@,
            key_file: self.key_file@,
            host: self.host@,
            description: opt_view(self.description),
        }
    }
}

impl SshAccount {
    /// A field-by-field copy of this account.
    pub fn copy(&self) -> (r: SshAccount)
        ensures
            r@ == self@,
    {
        let description = match &self.description {
            Some(d) => Some(d.clone()),
            None => None,
        };
        SshAccount {
            name: self.name.clone(),
            email: self.email.clone(),
            key_file: self.key_file.clone(),
            host: self.host.clone(),
            description,
        }
    }
}

/// The store as a sequence of account views and the active name.
pub ghost struct ConfigView {
    pub accounts: Seq<AccountView>,
    pub current: Option<Seq<char>>,
}

impl ConfigView {
    /// An account named `name` is stored.
    pub open spec fn has(self, name: Seq<char>) -> bool {
        exists|i: int| 0 <= i < self.accounts.len() && self.accounts[i].name == name
    }

    /// No two stored accounts share a name.
    pub open spec fn wf(self) -> bool {
        forall|i: int, j: int|
            0 <= i < self.accounts.len() && 0 <= j < self.accounts.len() && i != j
                ==> self.accounts[i].name != self.accounts[j].name
    }

    /// The position of the account named `name`.
    pub open spec fn index_of(self, name: Seq<char>) -> int {
        choose|i: int| 0 <= i < self.accounts.len() && self.accounts[i].name == name
    }

    /// The account named `name`.
    pub open spec fn account(self, name: Seq<char>) -> AccountView {
        self.accounts[self.index_of(name)]
    }
}

/// How many stored accounts are named `name`.
pub open spec fn count_named(accounts: Seq<AccountView>, name: Seq<char>) -> nat
    decreases accounts.len(),
{
    if accounts.len() == 0 {
        0
    } else {
        count_named(accounts.drop_last(), name) + if accounts.last().name == name {
            1nat
        } else {
            0nat
        }
    }
}

/// Whether `email` matches `^[\w\.-]+@[\w\.-]+\.[a-zA-Z]{2,}$`, as the regex
/// crate decides it.
pub uninterp spec fn email_is_valid(email: Seq<char>) -> bool;

/// Relies on `regex::Regex::new` with a fixed, valid pattern (so it does not
/// fail) and on `regex::Regex::is_match`, which depends on its input alone.
#[verifier::external_body]
pub(crate) fn email_matches_pattern(email: &str) -> (r: bool)
    ensures
        r == email_is_valid(email@),
{
    let pattern = regex::Regex::new(r"^[\w\.-]+@[\w\.-]+\.[a-zA-Z]{2,}$").unwrap();
    pattern.is_match(email)
}

/// The store after adding `a`, and the outcome: a duplicate name or an
/// invalid email is refused and leaves the store as it was.
pub open spec fn add_spec(c: ConfigView, a: AccountView) -> (ConfigView, Result<(), ManagerError>) {
    if c.has(a.name) {
        (c, Err(ManagerError::DuplicateIdentity))
    } else if !email_is_valid(a.email) {
        (c, Err(ManagerError::InvalidEmail))
    } else {
        (ConfigView { accounts: c.accounts.push(a), current: c.current }, Ok(()))
    }
}

/// The store without the account named `name`; the active name is cleared
/// when it was that account.
pub open spec fn remove_spec(c: ConfigView, name: Seq<char>) -> ConfigView {
    ConfigView {
        accounts: c.accounts.remove(c.index_of(name)),
        current: if c.current == Some(name) {
            None
        } else {
            c.current
        },
    }
}

/// The persisted store of accounts.
pub struct Config {
    accounts: Vec<SshAccount>,
    current_account: Option<String>,
}

impl View for Config {
    type V = ConfigView;

    closed spec fn view(&self) -> ConfigView {
        ConfigView {
            accounts: self.accounts@.map_values(|a: SshAccount| a@),
            current: opt_view(self.current_account),
        }
    }
}

/// The index found for a name is the one `index_of` names, when names are
/// unique.
pub proof fn lemma_index_of(c: ConfigView, name: Seq<char>, i: int)
    requires
        c.wf(),
        0 <= i < c.accounts.len(),
        c.accounts[i].name == name,
    ensures
        c.has(name),
        c.index_of(name) == i,
        c.account(name) == c.accounts[i],
{
    let k = c.index_of(name);
    assert(0 <= k < c.accounts.len() && c.accounts[k].name == name);
}

proof fn lemma_count_named(s: Seq<AccountView>, name: Seq<char>)
    requires
        forall|i: int, j: int|
            0 <= i < s.len() && 0 <= j < s.len() && i != j ==> s[i].name != s[j].name,
    ensures
        count_named(s, name) <= 1,
        (exists|i: int| 0 <= i < s.len() && s[i].name == name) ==> count_named(s, name) == 1,
        !(exists|i: int| 0 <= i < s.len() && s[i].name == name) ==> count_named(s, name) == 0,
    decreases s.len(),
{
    if s.len() > 0 {
        let p = s.drop_last();
        lemma_count_named(p, name);
        if s.last().name == name {
            assert forall|i: int| 0 <= i < p.len() implies p[i].name != name by {
                assert(s[i] == p[i]);
                assert(s[s.len() - 1] == s.last());
            }
        }
        if exists|i: int| 0 <= i < s.len() && s[i].name == name {
            let i = choose|i: int| 0 <= i < s.len() && s[i].name == name;
            if i < s.len() - 1 {
                assert(p[i] == s[i]);
            }
        }
        if exists|i: int| 0 <= i < p.len() && p[i].name == name {
            let i = choose|i: int| 0 <= i < p.len() && p[i].name == name;
            assert(s[i] == p[i]);
        }
    }
}

/// Adding an account under a name, then adding any account under the same
/// name: the second add reports a duplicate and changes nothing, and exactly
/// one account carries that name, whenever the first add succeeded or the
/// name was already stored. In every case at most one account carries it.
pub proof fn lemma_add_twice(c: ConfigView, a1: AccountView, a2: AccountView)
    requires
        c.wf(),
        a1.name == a2.name,
    ensures
        ({
            let (c1, r1) = add_spec(c, a1);
            let (c2, r2) = add_spec(c1, a2);
            &&& c2.wf()
            &&& count_named(c2.accounts, a1.name) <= 1
            &&& (r1 is Ok || c.has(a1.name)) ==> {
                &&& r2 == Err::<(), ManagerError>(ManagerError::DuplicateIdentity)
                &&& c2 == c1
                &&& count_named(c2.accounts, a1.name) == 1
            }
        }),
{
    lemma_add_keeps_wf(c, a1);
    let (c1, r1) = add_spec(c, a1);
    lemma_add_keeps_wf(c1, a2);
    let (c2, r2) = add_spec(c1, a2);
    lemma_count_named(c2.accounts, a1.name);
    if r1 is Ok {
        assert(c1.accounts[c1.accounts.len() - 1].name == a1.name);
        assert(c1.has(a1.name));
    }
    if c.has(a1.name) {
        assert(c1 == c);
    }
    if r1 is Ok || c.has(a1.name) {
        let i = choose|i: int| 0 <= i < c2.accounts.len() && c2.accounts[i].name == a1.name;
    }
}

/// An add keeps names unique.
pub proof fn lemma_add_keeps_wf(c: ConfigView, a: AccountView)
    requires
        c.wf(),
    ensures
        add_spec(c, a).0.wf(),
{
    let c1 = add_spec(c, a).0;
    if !c.has(a.name) && email_is_valid(a.email) {
        assert forall|i: int, j: int|
            0 <= i < c1.accounts.len() && 0 <= j < c1.accounts.len() && i != j
            implies c1.accounts[i].name != c1.accounts[j].name by {
            if i < c.accounts.len() && j < c.accounts.len() {
                assert(c1.accounts[i] == c.accounts[i]);
                assert(c1.accounts[j] == c.accounts[j]);
            } else if i < c.accounts.len() {
                assert(c1.accounts[i] == c.accounts[i]);
            } else {
                assert(c1.accounts[j] == c.accounts[j]);
            }
        }
    }
}

impl Config {
    /// An empty store with no active account.
    pub fn new() -> (r: Config)
        ensures
            r@.accounts == Seq::<AccountView>::empty(),
            r@.current == None::<Seq<char>>,
            r@.wf(),
    {
        let r = Config { accounts: Vec::new(), current_account: None };
        assert(r@.accounts =~= Seq::<AccountView>::empty());
        r
    }

    /// A store holding `accounts` and the active name `current`; refused
    /// when two accounts share a name. The active name need not be stored.
    pub fn from_parts(accounts: Vec<SshAccount>, current: Option<String>) -> (r: Result<
        Config,
        ManagerError,
    >)
        ensures
            match r {
                Ok(c) => {
                    &&& c@.accounts == accounts@.map_values(|a: SshAccount| a@)
                    &&& c@.current == opt_view(current)
                    &&& c@.wf()
                },
                Err(e) => {
                    &&& e == ManagerError::DuplicateIdentity
                    &&& !(ConfigView {
                        accounts: accounts@.map_values(|a: SshAccount| a@),
                        current: opt_view(current),
                    }).wf()
                },
            },
    {
        let ghost vs = accounts@.map_values(|a: SshAccount| a@);
        let mut i: usize = 0;
        while i < accounts.len()
            invariant
                i <= accounts.len(),
                vs == accounts@.map_values(|a: SshAccount| a@),
                forall|p: int, q: int| 0 <= p < i && 0 <= q < accounts.len() && p != q
                    ==> vs[p].name != vs[q].name,
            decreases accounts.len() - i,
        {
            let mut j: usize = 0;
            while j < accounts.len()
                invariant
                    i < accounts.len(),
                    j <= accounts.len(),
                    vs == accounts@.map_values(|a: SshAccount| a@),
                    forall|p: int, q: int| 0 <= p < i && 0 <= q < accounts.len() && p != q
                        ==> vs[p].name != vs[q].name,
                    forall|q: int| 0 <= q < j && q != i ==> vs[i as int].name != vs[q].name,
                decreases accounts.len() - j,
            {
                if j != i && accounts[i].name == accounts[j].name {
                    let ghost c = ConfigView { accounts: vs, current: opt_view(current) };
                    assert(c.accounts[i as int].name == c.accounts[j as int].name);
                    return Err(ManagerError::DuplicateIdentity);
                }
                j = j + 1;
            }
            i = i + 1;
        }
        let r = Config { accounts, current_account: current };
        Ok(r)
    }

    /// The stored accounts, in order.
    pub fn accounts(&self) -> (r: &Vec<SshAccount>)
        ensures
            r@.map_values(|a: SshAccount| a@) == self@.accounts,
    {
        &self.accounts
    }

    /// The active account name, if any.
    pub fn current_account(&self) -> (r: &Option<String>)
        ensures
            opt_view(*r) == self@.current,
    {
        &self.current_account
    }

    /// Whether an account named `name` is stored.
    pub fn contains(&self, name: &str) -> (r: bool)
        ensures
            r == self@.has(name@),
    {
        self.position(name).is_some()
    }

    /// Where the account named `name` is stored, if it is.
    pub fn position(&self, name: &str) -> (r: Option<usize>)
        ensures
            match r {
                Some(i) => 0 <= i < self@.accounts.len() && self@.accounts[i as int].name == name@,
                None => !self@.has(name@),
            },
    {
        let key = String::from_str(name);
        let mut i: usize = 0;
        while i < self.accounts.len()
            invariant
                i <= self.accounts.len(),
                key@ == name@,
                forall|k: int| 0 <= k < i ==> self@.accounts[k].name != name@,
            decreases self.accounts.len() - i,
        {
            assert(self@.accounts[i as int] == self.accounts@[i as int]@);
            if self.accounts[i].name == key {
                return Some(i);
            }
            i = i + 1;
        }
        None
    }
    /// Adds `account`, unless its name is taken or its email is invalid.
    pub fn add(&mut self, account: SshAccount) -> (r: Result<(), ManagerError>)
        requires
            old(self)@.wf(),
        ensures
            (final(self)@, r) == add_spec(old(self)@, account@),
            final(self)@.wf(),
    {
        proof { lemma_add_keeps_wf(self@, account@); }
        if self.contains(account.name.as_str()) {
            return Err(ManagerError::DuplicateIdentity);
        }
        if !email_matches_pattern(account.email.as_str()) {
            return Err(ManagerError::InvalidEmail);
        }
        let ghost av = account@;
        let ghost before = self.accounts@;
        self.accounts.push(account);
        assert(self.accounts@.map_values(|a: SshAccount| a@) =~= before.map_values(
            |a: SshAccount| a@,
        ).push(av));
        Ok(())
    }

    /// Makes the account named `name` the active one.
    pub fn select(&mut self, name: &str) -> (r: Result<(), ManagerError>)
        requires
            old(self)@.wf(),
        ensures
            !old(self)@.has(name@) ==> r == Err::<(), ManagerError>(ManagerError::UnknownIdentity)
                && final(self)@ == old(self)@,
            old(self)@.has(name@) ==> r is Ok && final(self)@ == (ConfigView {
                accounts: old(self)@.accounts,
                current: Some(name@),
            }),
            final(self)@.wf(),
    {
        if !self.contains(name) {
            return Err(ManagerError::UnknownIdentity);
        }
        self.current_account = Some(String::from_str(name));
        Ok(())
    }

    /// Removes the account named `name` and hands it back; the active name is
    /// cleared when it named that account.
    pub fn remove(&mut self, name: &str) -> (r: Result<SshAccount, ManagerError>)
        requires
            old(self)@.wf(),
        ensures
            !old(self)@.has(name@) ==> r is Err && r->Err_0 == ManagerError::UnknownIdentity
                && final(self)@ == old(self)@,
            old(self)@.has(name@) ==> r is Ok && r->Ok_0@ == old(self)@.account(name@)
                && final(self)@ == remove_spec(old(self)@, name@),
            final(self)@.wf(),
    {
        match self.position(name) {
            None => Err(ManagerError::UnknownIdentity),
            Some(i) => {
                proof { lemma_index_of(self@, name@, i as int); }
                let ghost old_view = self@;
                let ghost before = self.accounts@;
                let account = self.accounts.remove(i);
                assert(self.accounts@.map_values(|a: SshAccount| a@) =~= before.map_values(
                    |a: SshAccount| a@,
                ).remove(i as int));
                let key = String::from_str(name);
                let active = match &self.current_account {
                    Some(c) => *c == key,
                    None => false,
                };
                if active {
                    self.current_account = None;
                }
                proof {
                    let rest = self@.accounts;
                    assert forall|p: int, q: int|
                        0 <= p < rest.len() && 0 <= q < rest.len() && p != q
                        implies rest[p].name != rest[q].name by {
                        let p0 = if p < i { p } else { p + 1 };
                        let q0 = if q < i { q } else { q + 1 };
                        assert(rest[p] == old_view.accounts[p0]);
                        assert(rest[q] == old_view.accounts[q0]);
                    }
                }
                Ok(account)
            },
        }
    }
}

} // verus!
