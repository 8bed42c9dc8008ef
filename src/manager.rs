//! The account manager: the transitions add, switch and remove over the store,
//! and the edits of the SSH configuration text that go with them.
use vstd::prelude::*;
use vstd::string::StrSliceExecFns;
use vstd::string::StringExecFns;
use crate::blocks::{active_body, active_body_text, remove_marker_block, upsert_marker_block, upsert_spec};
use crate::sections::{
    has_named_section, header_prefix, host_line, remove_named_section, strip_sections,
};
use crate::store::{
    email_is_valid, email_matches_pattern, lemma_index_of, opt_view, AccountView, Config, ConfigView, ManagerError,
    SshAccount,
};
use crate::text::{chars_of, contains, find_from, find_from_exec, push_char};

verus! {

/// `s` with every `from` replaced by `to`.
pub open spec fn replace_char(s: Seq<char>, from: char, to: char) -> Seq<char> {
    Seq::new(s.len(), |i: int| if s[i] == from { to } else { s[i] })
}

/// The part of `host` before its first dot; all of it when it has none.
pub open spec fn first_label(host: Seq<char>) -> Seq<char> {
    match find_from(host, seq!['.'], 0) {
        Some(i) => host.take(i),
        None => host,
    }
}

/// The routing alias of an account: the first label of its host, a hyphen,
/// and its name with spaces turned into hyphens.
pub open spec fn alias(host: Seq<char>, name: Seq<char>) -> Seq<char> {
    first_label(host) + seq!['-'] + replace_char(name, ' ', '-')
}

/// The key file name of an account: `id_`, the name with spaces turned into
/// underscores, `_`, and the host with dots turned into underscores.
pub open spec fn key_file_name(name: Seq<char>, host: Seq<char>) -> Seq<char> {
    "id_"@ + replace_char(name, ' ', '_') + seq!['_'] + replace_char(host, '.', '_')
}

/// `file` inside directory `dir`.
pub open spec fn join_path(dir: Seq<char>, file: Seq<char>) -> Seq<char> {
    if dir.len() == 0 {
        file
    } else if dir.last() == '/' {
        dir + file
    } else {
        dir + seq!['/'] + file
    }
}

/// The named section written for account `a` whose key lies at `key_path`.
pub open spec fn named_section(a: AccountView, key_path: Seq<char>) -> Seq<char> {
    "\n"@ + header_prefix(a.name) + match a.description {
        Some(d) => d,
        None => a.email,
    } + "\n"@ + host_line(alias(a.host, a.name)) + "    HostName "@ + a.host
        + "\n    User git\n    IdentityFile "@ + key_path
        + "\n    AddKeysToAgent yes\n    UseKeychain yes\n    IdentitiesOnly yes\n"@
}

/// What `check_new_account` and `add_account` refuse before any key exists.
pub open spec fn new_account_check(c: ConfigView, name: Seq<char>, email: Seq<char>) -> Result<
    (),
    ManagerError,
> {
    if c.has(name) {
        Err(ManagerError::DuplicateIdentity)
    } else if !email_is_valid(email) {
        Err(ManagerError::InvalidEmail)
    } else {
        Ok(())
    }
}

/// The result of probing a host with a key, classified from the probe's
/// diagnostic text.
#[derive(PartialEq, Eq, Structural, Debug, Clone, Copy)]
pub enum ProbeOutcome {
    Authenticated,
    PermissionDenied,
    Other,
}

/// What the status of the store is.
#[derive(Debug)]
pub enum Status {
    /// No account is active.
    NoActive,
    /// This account is active.
    Active(SshAccount),
    /// The active name matches no stored account.
    DanglingActiveReference(String),
}

/// What a removal hands back: the removed account, the new configuration
/// text, whether a named section was found, and whether the account was active.
pub struct Removal {
    pub account: SshAccount,
    pub config_text: String,
    pub section_found: bool,
    pub was_active: bool,
}

/// `s` with every `from` replaced by `to`.
pub fn replace_char_text(s: &str, from: char, to: char) -> (r: String)
    ensures
        r@ == replace_char(s@, from, to),
{
    let v = chars_of(s);
    let mut r = String::new();
    let mut i: usize = 0;
    while i < v.len()
        invariant
            i <= v.len(),
            v@ == s@,
            r@ == replace_char(s@, from, to).take(i as int),
        decreases v.len() - i,
    {
        let c = if v[i] == from { to } else { v[i] };
        push_char(&mut r, c);
        i = i + 1;
        assert(r@ =~= replace_char(s@, from, to).take(i as int));
    }
    assert(replace_char(s@, from, to).take(i as int) =~= replace_char(s@, from, to));
    r
}

/// The part of `host` before its first dot; all of it when it has none.
pub fn first_label_text(host: &str) -> (r: String)
    ensures
        r@ == first_label(host@),
{
    let hv = chars_of(host);
    let dot: Vec<char> = vec!['.'];
    assert(dot@ =~= seq!['.']);
    match find_from_exec(&hv, &dot, 0) {
        Some(i) => {
            assert(host@.subrange(0, i as int) =~= host@.take(i as int));
            String::from_str(host.substring_char(0, i))
        },
        None => String::from_str(host),
    }
}

/// `file` inside directory `dir`.
pub fn join_path_text(dir: &str, file: &str) -> (r: String)
    ensures
        r@ == join_path(dir@, file@),
{
    let dv = chars_of(dir);
    let mut r = String::from_str(dir);
    if dv.len() == 0 {
        return String::from_str(file);
    }
    if dv[dv.len() - 1] != '/' {
        push_char(&mut r, '/');
    }
    r.append(file);
    r
}

impl SshManager {
    /// The routing alias of `account`, e.g. `github-work` for the account
    /// `work` on `github.com`.
    pub fn alias_for(account: &SshAccount) -> (r: String)
        ensures
            r@ == alias(account.host@, account.name@),
    {
        let mut r = first_label_text(account.host.as_str());
        push_char(&mut r, '-');
        let tail = replace_char_text(account.name.as_str(), ' ', '-');
        r.append(tail.as_str());
        r
    }

    /// The key file name for an account `name` on `host`.
    pub fn key_file_for(name: &str, host: &str) -> (r: String)
        ensures
            r@ == key_file_name(name@, host@),
    {
        let mut r = String::from_str("id_");
        let n = replace_char_text(name, ' ', '_');
        r.append(n.as_str());
        push_char(&mut r, '_');
        let h = replace_char_text(host, '.', '_');
        r.append(h.as_str());
        r
    }
}

/// The manager: the directory that holds the keys and the configuration file,
/// and the store.
pub struct SshManager {
    pub ssh_dir: String,
    pub config: Config,
}

/// The named section written for `account`, whose key lies at `key_path`.
pub fn named_section_text(account: &SshAccount, key_path: &str) -> (r: String)
    ensures
        r@ == named_section(account@, key_path@),
{
    let mut r = String::from_str("\n# ");
    r.append(account.name.as_str());
    r.append(" - ");
    match &account.description {
        Some(d) => r.append(d.as_str()),
        None => r.append(account.email.as_str()),
    }
    r.append("\nHost ");
    let a = SshManager::alias_for(account);
    r.append(a.as_str());
    r.append("\n    HostName ");
    r.append(account.host.as_str());
    r.append("\n    User git\n    IdentityFile ");
    r.append(key_path);
    r.append("\n    AddKeysToAgent yes\n    UseKeychain yes\n    IdentitiesOnly yes\n");
    proof {
        reveal_strlit("\n# ");
        reveal_strlit("\n");
        reveal_strlit("# ");
        reveal_strlit("\nHost ");
        reveal_strlit("Host ");
        reveal_strlit("\n    HostName ");
        reveal_strlit("    HostName ");
    }
    assert(r@ =~= named_section(account@, key_path@));
    r
}

/// Classifies the diagnostic text of a connection probe: a successful
/// authentication first, then a refused key, else anything else.
pub fn classify_probe(stderr: &str) -> (r: ProbeOutcome)
    ensures
        contains(stderr@, "successfully authenticated"@) ==> r == ProbeOutcome::Authenticated,
        !contains(stderr@, "successfully authenticated"@) && contains(stderr@, "Permission denied"@)
            ==> r == ProbeOutcome::PermissionDenied,
        !contains(stderr@, "successfully authenticated"@) && !contains(
            stderr@,
            "Permission denied"@,
        ) ==> r == ProbeOutcome::Other,
{
    let t = chars_of(stderr);
    let ok = chars_of("successfully authenticated");
    let denied = chars_of("Permission denied");
    if crate::text::contains_exec(&t, &ok) {
        ProbeOutcome::Authenticated
    } else if crate::text::contains_exec(&t, &denied) {
        ProbeOutcome::PermissionDenied
    } else {
        ProbeOutcome::Other
    }
}

impl SshManager {
    /// A manager over the key directory `ssh_dir` and the store `config`.
    pub fn new(ssh_dir: String, config: Config) -> (r: SshManager)
        ensures
            r.ssh_dir == ssh_dir,
            r.config == config,
    {
        SshManager { ssh_dir, config }
    }

    /// The path of `key_file` inside the key directory.
    pub fn key_path(&self, key_file: &str) -> (r: String)
        ensures
            r@ == join_path(self.ssh_dir@, key_file@),
    {
        join_path_text(self.ssh_dir.as_str(), key_file)
    }

    /// Whether a new account `name` with `email` may be created: the name
    /// must be free and the email well formed.
    pub fn check_new_account(&self, name: &str, email: &str) -> (r: Result<(), ManagerError>)
        ensures
            r == new_account_check(self.config@, name@, email@),
    {
        if self.config.contains(name) {
            Err(ManagerError::DuplicateIdentity)
        } else if !email_matches_pattern(email) {
            Err(ManagerError::InvalidEmail)
        } else {
            Ok(())
        }
    }

    /// Records a new account once its key was generated. A taken name, an
    /// invalid email, or a failed key generation leaves the store unchanged.
    pub fn add_account(
        &mut self,
        name: String,
        email: String,
        host: String,
        description: Option<String>,
        key_generated: bool,
    ) -> (r: Result<(), ManagerError>)
        requires
            old(self).config@.wf(),
        ensures
            final(self).ssh_dir == old(self).ssh_dir,
            final(self).config@.wf(),
            new_account_check(old(self).config@, name@, email@) is Err ==> {
                &&& r == new_account_check(old(self).config@, name@, email@)
                &&& final(self).config@ == old(self).config@
            },
            new_account_check(old(self).config@, name@, email@) is Ok && !key_generated ==> {
                &&& r == Err::<(), ManagerError>(ManagerError::KeyGenerationFailed)
                &&& final(self).config@ == old(self).config@
            },
            new_account_check(old(self).config@, name@, email@) is Ok && key_generated ==> {
                let a = AccountView {
                    name: name@,
                    email: email@,
                    key_file: key_file_name(name@, host@),
                    host: host@,
                    description: opt_view(description),
                };
                &&& r is Ok
                &&& final(self).config@ == (ConfigView {
                    accounts: old(self).config@.accounts.push(a),
                    current: old(self).config@.current,
                })
            },
    {
        let check = self.check_new_account(name.as_str(), email.as_str());
        if check.is_err() {
            return check;
        }
        if !key_generated {
            return Err(ManagerError::KeyGenerationFailed);
        }
        let key_file = SshManager::key_file_for(name.as_str(), host.as_str());
        let account = SshAccount { name, email, key_file, host, description };
        self.config.add(account)
    }

    /// Makes `name` the active account and returns `config_text` with the
    /// active block for its host pointing at its key.
    pub fn switch_account(&mut self, name: &str, config_text: &str) -> (r: Result<
        String,
        ManagerError,
    >)
        requires
            old(self).config@.wf(),
        ensures
            final(self).ssh_dir == old(self).ssh_dir,
            final(self).config@.wf(),
            !old(self).config@.has(name@) ==> r is Err && r->Err_0 == ManagerError::UnknownIdentity
                && final(self).config@ == old(self).config@,
            old(self).config@.has(name@) ==> {
                let a = old(self).config@.account(name@);
                &&& r is Ok
                &&& r->Ok_0@ == upsert_spec(
                    config_text@,
                    a.host,
                    active_body(a.host, join_path(old(self).ssh_dir@, a.key_file)),
                )
                &&& final(self).config@ == (ConfigView {
                    accounts: old(self).config@.accounts,
                    current: Some(name@),
                })
            },
    {
        match self.config.position(name) {
            None => Err(ManagerError::UnknownIdentity),
            Some(i) => {
                proof { lemma_index_of(self.config@, name@, i as int); }
                let account = &self.config.accounts()[i];
                let key_path = self.key_path(account.key_file.as_str());
                let body = active_body_text(account.host.as_str(), key_path.as_str());
                let text = upsert_marker_block(config_text, account.host.as_str(), body.as_str());
                let _ = self.config.select(name);
                Ok(text)
            },
        }
    }

    /// Removes the account `name`, and returns the removed account with
    /// `config_text` cleaned: its named section goes, and when it was active,
    /// the active block of its host goes too.
    pub fn remove_account(&mut self, name: &str, config_text: &str) -> (r: Result<
        Removal,
        ManagerError,
    >)
        requires
            old(self).config@.wf(),
        ensures
            final(self).ssh_dir == old(self).ssh_dir,
            final(self).config@.wf(),
            !old(self).config@.has(name@) ==> r is Err && r->Err_0 == ManagerError::UnknownIdentity
                && final(self).config@ == old(self).config@,
            old(self).config@.has(name@) ==> {
                let a = old(self).config@.account(name@);
                let stripped = strip_sections(
                    config_text@,
                    0,
                    header_prefix(a.name),
                    host_line(alias(a.host, a.name)),
                );
                &&& r is Ok
                &&& r->Ok_0.account@ == a
                &&& r->Ok_0.was_active == (old(self).config@.current == Some(name@))
                &&& r->Ok_0.config_text@ == if r->Ok_0.was_active {
                    crate::blocks::remove_spec(stripped, a.host)
                } else {
                    stripped
                }
                &&& !r->Ok_0.section_found ==> stripped == config_text@
                &&& r->Ok_0.section_found ==> stripped.len() < config_text@.len()
                &&& final(self).config@ == crate::store::remove_spec(old(self).config@, name@)
            },
    {
        let key = String::from_str(name);
        let was_active = match self.config.current_account() {
            Some(c) => *c == key,
            None => false,
        };
        match self.config.remove(name) {
            Err(e) => Err(e),
            Ok(account) => {
                let alias_text = SshManager::alias_for(&account);
                let (stripped, section_found) = remove_named_section(
                    config_text,
                    account.name.as_str(),
                    alias_text.as_str(),
                );
                let text = if was_active {
                    remove_marker_block(stripped.as_str(), account.host.as_str())
                } else {
                    stripped
                };
                Ok(Removal { account, config_text: text, section_found, was_active })
            },
        }
    }

    /// The configuration text with the named section of account `name`
    /// appended; `None` when the text already holds a header for that name.
    pub fn update_ssh_config(&self, name: &str, config_text: &str) -> (r: Result<
        Option<String>,
        ManagerError,
    >)
        requires
            self.config@.wf(),
        ensures
            !self.config@.has(name@) ==> r is Err && r->Err_0 == ManagerError::UnknownIdentity,
            self.config@.has(name@) ==> {
                let a = self.config@.account(name@);
                &&& r is Ok
                &&& contains(config_text@, header_prefix(name@)) ==> r->Ok_0 is None
                &&& !contains(config_text@, header_prefix(name@)) ==> r->Ok_0 is Some
                    && r->Ok_0->Some_0@ == config_text@ + named_section(
                    a,
                    join_path(self.ssh_dir@, a.key_file),
                )
            },
    {
        match self.config.position(name) {
            None => Err(ManagerError::UnknownIdentity),
            Some(i) => {
                proof { lemma_index_of(self.config@, name@, i as int); }
                if has_named_section(config_text, name) {
                    return Ok(None);
                }
                let account = &self.config.accounts()[i];
                let key_path = self.key_path(account.key_file.as_str());
                let section = named_section_text(account, key_path.as_str());
                let mut text = String::from_str(config_text);
                text.append(section.as_str());
                Ok(Some(text))
            },
        }
    }

    /// The active account, no active account, or an active name that matches
    /// no stored account.
    pub fn status(&self) -> (r: Status)
        requires
            self.config@.wf(),
        ensures
            self.config@.current is None ==> r is NoActive,
            self.config@.current is Some ==> {
                let n = self.config@.current->Some_0;
                &&& self.config@.has(n) ==> r is Active && r->Active_0@ == self.config@.account(n)
                &&& !self.config@.has(n) ==> r is DanglingActiveReference
                    && r->DanglingActiveReference_0@ == n
            },
    {
        match self.config.current_account() {
            None => Status::NoActive,
            Some(n) => match self.config.position(n.as_str()) {
                Some(i) => {
                    proof { lemma_index_of(self.config@, n@, i as int); }
                    Status::Active(self.config.accounts()[i].copy())
                },
                None => Status::DanglingActiveReference(n.clone()),
            },
        }
    }

    /// Whether `name` is the active account.
    pub fn is_active(&self, name: &str) -> (r: bool)
        ensures
            r == (self.config@.current == Some(name@)),
    {
        let key = String::from_str(name);
        match self.config.current_account() {
            Some(c) => *c == key,
            None => false,
        }
    }
}

} // verus!
