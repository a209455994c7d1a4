//! The account at the certificate authority.
//!
//! Its credentials are kept in a file that only its owner can read. An account
//! is restored from that file, and registered where there is none.

use instant_acme::AccountCredentials;
use vstd::prelude::*;
use vstd::string::*;

use crate::acme::error::{AcmeError, AcmeErrorView};
use crate::path::{
    debug_text, extended_path, parent_dir, parent_of, quoted, with_extension,
};
use crate::proxy_protocol::cut_bytes;
use crate::text::{join2, join3};

verus! {

broadcast use vstd::string::group_string_axioms;

/// `instant_acme`'s credentials of an account.
#[verifier::external_type_specification]
#[verifier::external_body]
pub struct ExAccountCredentials(instant_acme::AccountCredentials);

/// The server URLs that credentials of old may hold.
pub struct UrlsView {
    pub new_nonce: Seq<char>,
    pub new_account: Seq<char>,
    pub new_order: Seq<char>,
    pub new_authz: Option<Seq<char>>,
    pub revoke_cert: Option<Seq<char>>,
    pub key_change: Option<Seq<char>>,
}

/// The model of an account's credentials.
pub struct CredentialsView {
    pub id: Seq<char>,
    pub key_pkcs8: Seq<u8>,
    pub directory: Option<Seq<char>>,
    pub urls: Option<UrlsView>,
}

/// The fields of credentials.
pub uninterp spec fn credentials_view(credentials: AccountCredentials) -> CredentialsView;

/// The credentials that `serde_json` reads from bytes, or its message.
pub uninterp spec fn decoded_credentials(bytes: Seq<u8>) -> Result<CredentialsView, Seq<char>>;

/// The bytes that `serde_json` writes for credentials, or its message.
pub uninterp spec fn encoded_credentials(credentials: CredentialsView) -> Result<
    Seq<u8>,
    Seq<char>,
>;

/// `serde_json::from_slice` into `AccountCredentials`: the result depends on the
/// bytes alone.
#[verifier::external_body]
fn decode_credentials(bytes: &[u8]) -> (r: Result<AccountCredentials, String>)
    ensures
        match r {
            Ok(c) => decoded_credentials(bytes@) == Ok::<CredentialsView, Seq<char>>(
                credentials_view(c),
            ),
            Err(m) => decoded_credentials(bytes@) == Err::<CredentialsView, Seq<char>>(m@),
        },
{
    serde_json::from_slice(bytes).map_err(|e| e.to_string())
}

/// `serde_json::to_vec` of `AccountCredentials`: the result depends on the
/// fields alone. The key is written as text that `serde_json::from_slice` turns
/// back into the same key, and every other field is a text or absent, so what
/// was written reads back as the same credentials.
#[verifier::external_body]
fn encode_credentials(credentials: &AccountCredentials) -> (r: Result<Vec<u8>, String>)
    ensures
        match r {
            Ok(b) => encoded_credentials(credentials_view(*credentials)) == Ok::<
                Seq<u8>,
                Seq<char>,
            >(b@) && decoded_credentials(b@) == Ok::<CredentialsView, Seq<char>>(
                credentials_view(*credentials),
            ),
            Err(m) => encoded_credentials(credentials_view(*credentials)) == Err::<
                Seq<u8>,
                Seq<char>,
            >(m@),
        },
{
    serde_json::to_vec(credentials).map_err(|e| e.to_string())
}

/// Where the account's credentials are kept.
#[derive(Debug)]
pub struct AccountKey {
    path: String,
}

/// What could not be done for an account.
#[derive(Clone, Copy, Debug, PartialEq, Eq, Structural)]
pub enum AccountFault {
    Read,
    Decode,
    Restore,
    Create,
    Serialise,
    MakeDir,
    Write,
    SetMode,
    Rename,
}

/// Mode of the credentials file: its owner only.
pub const ACCOUNT_KEY_MODE: u32 = 0o600;

/// Where the setup of an account begins.
pub open spec fn setup_begun(path: Seq<char>, directory_url: Seq<char>, file_exists: bool) -> SetupView {
    SetupView {
        path,
        directory_url,
        bytes: Seq::empty(),
        phase: if file_exists {
            AccountPhase::Reading
        } else {
            AccountPhase::Creating
        },
    }
}

/// What the setup of an account begins with.
pub open spec fn first_action(
    path: Seq<char>,
    file_exists: bool,
    directory_url: Seq<char>,
    contact_email: Seq<char>,
    terms_of_service_agreed: bool,
) -> AccountActionView {
    if file_exists {
        AccountActionView::Read { path }
    } else {
        AccountActionView::Create {
            contact: "mailto:"@ + contact_email,
            directory_url,
            terms_of_service_agreed,
        }
    }
}

/// The credentials that a file at `path` holds, or the error.
pub open spec fn kept_credentials(path: Seq<char>, contents: Result<Seq<u8>, Seq<char>>) -> Result<
    CredentialsView,
    AcmeErrorView,
> {
    match contents {
        Err(m) => Err(account_fault(path, AccountFault::Read, ""@, m)),
        Ok(b) => match decoded_credentials(b) {
            Ok(v) => Ok(v),
            Err(m) => Err(account_fault(path, AccountFault::Decode, ""@, m)),
        },
    }
}

/// View of what reading a file gave.
pub open spec fn contents_view(contents: Result<&Vec<u8>, String>) -> Result<Seq<u8>, Seq<char>> {
    match contents {
        Ok(b) => Ok(b@),
        Err(m) => Err(m@),
    }
}

impl AccountKey {
    /// The credentials file.
    pub closed spec fn spec_path(&self) -> Seq<char> {
        self.path@
    }

    /// Credentials are kept at `path`.
    pub fn new(path: &str) -> (r: Self)
        ensures
            r.spec_path() == path@,
    {
        AccountKey { path: path.to_owned() }
    }

    /// The credentials file.
    pub fn path(&self) -> (r: &str)
        ensures
            r@ == self.spec_path(),
    {
        self.path.as_str()
    }

    /// Starts to restore the account from its file, or to register one where
    /// there is no file.
    pub fn load_or_register(
        &self,
        file_exists: bool,
        directory_url: &str,
        contact_email: &str,
        terms_of_service_agreed: bool,
    ) -> (r: (AccountSetup, AccountAction))
        ensures
            r.0@ == setup_begun(self.spec_path(), directory_url@, file_exists),
            r.1@ == first_action(
                self.spec_path(),
                file_exists,
                directory_url@,
                contact_email@,
                terms_of_service_agreed,
            ),
    {
        let phase = if file_exists {
            AccountPhase::Reading
        } else {
            AccountPhase::Creating
        };
        let action = if file_exists {
            AccountAction::Read { path: self.path.clone() }
        } else {
            AccountAction::Create {
                contact: join2("mailto:", contact_email),
                directory_url: directory_url.to_owned(),
                terms_of_service_agreed,
            }
        };
        let setup = AccountSetup {
            key: AccountKey { path: self.path.clone() },
            directory_url: directory_url.to_owned(),
            bytes: Vec::new(),
            phase,
        };
        assert(setup.bytes@ =~= Seq::<u8>::empty());
        (setup, action)
    }

    /// Checks decoded credentials.
    pub fn checked_credentials(&self, found: Result<AccountCredentials, String>) -> (r: Result<
        AccountCredentials,
        AcmeError,
    >)
        ensures
            match found {
                Ok(c) => r == Ok::<AccountCredentials, AcmeError>(c),
                Err(m) => r is Err && r->Err_0@ == account_fault(
                    self.spec_path(),
                    AccountFault::Decode,
                    ""@,
                    m@,
                ),
            },
    {
        match found {
            Ok(c) => Ok(c),
            Err(m) => Err(self.fault(AccountFault::Decode, "", m.as_str())),
        }
    }

    /// The credentials that the file holds. `contents` is what reading the file
    /// gave.
    pub fn read_credentials(&self, contents: Result<&Vec<u8>, String>) -> (r: Result<
        AccountCredentials,
        AcmeError,
    >)
        ensures
            match kept_credentials(self.spec_path(), contents_view(contents)) {
                Ok(v) => r is Ok && credentials_view(r->Ok_0) == v,
                Err(e) => r is Err && r->Err_0@ == e,
            },
    {
        match contents {
            Err(m) => Err(self.fault(AccountFault::Read, "", m.as_str())),
            Ok(b) => self.checked_credentials(decode_credentials(b.as_slice())),
        }
    }

    /// Checks encoded credentials.
    pub fn checked_bytes(&self, made: Result<Vec<u8>, String>) -> (r: Result<Vec<u8>, AcmeError>)
        ensures
            match made {
                Ok(b) => r == Ok::<Vec<u8>, AcmeError>(b),
                Err(m) => r is Err && r->Err_0@ == account_fault(
                    self.spec_path(),
                    AccountFault::Serialise,
                    ""@,
                    m@,
                ),
            },
    {
        match made {
            Ok(b) => Ok(b),
            Err(m) => Err(self.fault(AccountFault::Serialise, "", m.as_str())),
        }
    }

    /// The bytes in which credentials are kept. Reading them gives the
    /// credentials back.
    pub fn write_credentials(&self, credentials: &AccountCredentials) -> (r: Result<
        Vec<u8>,
        AcmeError,
    >)
        ensures
            match encoded_credentials(credentials_view(*credentials)) {
                Ok(b) => r is Ok && r->Ok_0@ == b && decoded_credentials(b) == Ok::<
                    CredentialsView,
                    Seq<char>,
                >(credentials_view(*credentials)),
                Err(m) => r is Err && r->Err_0@ == account_fault(
                    self.spec_path(),
                    AccountFault::Serialise,
                    ""@,
                    m,
                ),
            },
    {
        self.checked_bytes(encode_credentials(credentials))
    }

    /// The error of a fault. `other` is the path or URL that the fault is
    /// about besides the credentials file.
    pub fn fault(&self, fault: AccountFault, other: &str, message: &str) -> (r: AcmeError)
        ensures
            r@ == account_fault(self.spec_path(), fault, other@, message@),
    {
        let mut d: String;
        match fault {
            AccountFault::Read => {
                d = join2("read ", self.path.as_str());
                d.append(": ");
            },
            AccountFault::Decode => {
                d = join2("decode ", self.path.as_str());
                d.append(": ");
            },
            AccountFault::Restore => {
                d = join2("reconstruct account from ", self.path.as_str());
                d.append(": ");
            },
            AccountFault::Create => {
                d = join2("Account::create against ", quoted(other).as_str());
                d.append(": ");
            },
            AccountFault::Serialise => {
                d = "serialise account credentials: ".to_owned();
            },
            AccountFault::MakeDir => {
                d = join3("mkdir -p ", other, ": ");
            },
            AccountFault::Write => {
                d = join3("write ", other, ": ");
            },
            AccountFault::SetMode => {
                d = join3("chmod 0600 ", other, ": ");
            },
            AccountFault::Rename => {
                d = join3("rename ", other, " -> ");
                d.append(self.path.as_str());
                d.append(": ");
            },
        }
        d.append(message);
        assert(d@ =~= fault_detail(self.spec_path(), fault, other@, message@));
        AcmeError::Account { host: "<global>".to_owned(), detail: d }
    }
}

/// The error of a fault.
pub open spec fn account_fault(
    path: Seq<char>,
    fault: AccountFault,
    other: Seq<char>,
    message: Seq<char>,
) -> AcmeErrorView {
    AcmeErrorView::Account {
        host: "<global>"@,
        detail: fault_detail(path, fault, other, message),
    }
}

/// The detail of the error of a fault.
pub open spec fn fault_detail(
    path: Seq<char>,
    fault: AccountFault,
    other: Seq<char>,
    message: Seq<char>,
) -> Seq<char> {
    match fault {
        AccountFault::Read => "read "@ + path + ": "@ + message,
        AccountFault::Decode => "decode "@ + path + ": "@ + message,
        AccountFault::Restore => "reconstruct account from "@ + path + ": "@ + message,
        AccountFault::Create => "Account::create against "@ + debug_text(other) + ": "@ + message,
        AccountFault::Serialise => "serialise account credentials: "@ + message,
        AccountFault::MakeDir => "mkdir -p "@ + other + ": "@ + message,
        AccountFault::Write => "write "@ + other + ": "@ + message,
        AccountFault::SetMode => "chmod 0600 "@ + other + ": "@ + message,
        AccountFault::Rename => "rename "@ + other + " -> "@ + path + ": "@ + message,
    }
}

/// Where the setup of an account stands.
#[derive(Clone, Copy, Debug, PartialEq, Eq, Structural)]
pub enum AccountPhase {
    Reading,
    Restoring,
    Creating,
    MakingDir,
    Writing,
    SettingMode,
    Renaming,
    Over,
}

/// What happened.
pub enum AccountEvent {
    /// The file was read, or could not be.
    Read(Result<Vec<u8>, String>),
    /// An account was registered, with these credentials.
    Created(AccountCredentials),
    /// What was asked for is done.
    Done,
    /// What was asked for failed.
    Failed(String),
}

/// What to do next.
pub enum AccountAction {
    /// Read the credentials file.
    Read { path: String },
    /// Restore the account from its credentials.
    Restore(AccountCredentials),
    /// Register an account.
    Create { contact: String, directory_url: String, terms_of_service_agreed: bool },
    /// Make a directory, and those above it.
    MakeDir(String),
    Write { path: String, bytes: Vec<u8> },
    SetMode { path: String, mode: u32 },
    Rename { from: String, to: String },
    /// The account that was restored or registered is ready.
    Ready,
    /// Give up.
    Fail(AcmeError),
}

/// The model of an [`AccountEvent`].
pub enum AccountEventView {
    Read(Result<Seq<u8>, Seq<char>>),
    Created(CredentialsView),
    Done,
    Failed(Seq<char>),
}

impl View for AccountEvent {
    type V = AccountEventView;

    open spec fn view(&self) -> AccountEventView {
        match self {
            AccountEvent::Read(r) => AccountEventView::Read(
                match r {
                    Ok(b) => Ok(b@),
                    Err(m) => Err(m@),
                },
            ),
            AccountEvent::Created(c) => AccountEventView::Created(credentials_view(*c)),
            AccountEvent::Done => AccountEventView::Done,
            AccountEvent::Failed(m) => AccountEventView::Failed(m@),
        }
    }
}

/// The model of an [`AccountAction`].
pub enum AccountActionView {
    Read { path: Seq<char> },
    Restore(CredentialsView),
    Create { contact: Seq<char>, directory_url: Seq<char>, terms_of_service_agreed: bool },
    MakeDir(Seq<char>),
    Write { path: Seq<char>, bytes: Seq<u8> },
    SetMode { path: Seq<char>, mode: u32 },
    Rename { from: Seq<char>, to: Seq<char> },
    Ready,
    Fail(AcmeErrorView),
}

impl View for AccountAction {
    type V = AccountActionView;

    open spec fn view(&self) -> AccountActionView {
        match self {
            AccountAction::Read { path } => AccountActionView::Read { path: path@ },
            AccountAction::Restore(c) => AccountActionView::Restore(credentials_view(*c)),
            AccountAction::Create { contact, directory_url, terms_of_service_agreed } => {
                AccountActionView::Create {
                    contact: contact@,
                    directory_url: directory_url@,
                    terms_of_service_agreed: *terms_of_service_agreed,
                }
            },
            AccountAction::MakeDir(d) => AccountActionView::MakeDir(d@),
            AccountAction::Write { path, bytes } => AccountActionView::Write {
                path: path@,
                bytes: bytes@,
            },
            AccountAction::SetMode { path, mode } => AccountActionView::SetMode {
                path: path@,
                mode: *mode,
            },
            AccountAction::Rename { from, to } => AccountActionView::Rename {
                from: from@,
                to: to@,
            },
            AccountAction::Ready => AccountActionView::Ready,
            AccountAction::Fail(e) => AccountActionView::Fail(e@),
        }
    }
}

/// The setup of an account.
pub struct AccountSetup {
    key: AccountKey,
    directory_url: String,
    bytes: Vec<u8>,
    phase: AccountPhase,
}

/// The model of an [`AccountSetup`]. The bytes are what is to be written.
pub struct SetupView {
    pub path: Seq<char>,
    pub directory_url: Seq<char>,
    pub bytes: Seq<u8>,
    pub phase: AccountPhase,
}

impl View for AccountSetup {
    type V = SetupView;

    closed spec fn view(&self) -> SetupView {
        SetupView {
            path: self.key.path@,
            directory_url: self.directory_url@,
            bytes: self.bytes@,
            phase: self.phase,
        }
    }
}

/// The file that credentials are written to before it is renamed.
pub open spec fn temporary(path: Seq<char>) -> Seq<char> {
    extended_path(path, "key.tmp"@)
}

/// The setup goes on to a phase with an action.
pub open spec fn goes_on(s: SetupView, phase: AccountPhase, action: AccountActionView) -> (
    SetupView,
    AccountActionView,
) {
    (SetupView { phase, ..s }, action)
}

/// The setup ends with a fault.
pub open spec fn gives_up(
    s: SetupView,
    fault: AccountFault,
    other: Seq<char>,
    message: Seq<char>,
) -> (SetupView, AccountActionView) {
    goes_on(
        s,
        AccountPhase::Over,
        AccountActionView::Fail(account_fault(s.path, fault, other, message)),
    )
}

/// The setup goes on with writing the bytes.
pub open spec fn writes(s: SetupView) -> (SetupView, AccountActionView) {
    goes_on(
        s,
        AccountPhase::Writing,
        AccountActionView::Write { path: temporary(s.path), bytes: s.bytes },
    )
}

/// What follows an event. The credentials of a registered account are written
/// to a temporary file, which gets its mode and then its name. An event that
/// does not belong to the phase gives up.
pub open spec fn account_step(s: SetupView, event: AccountEventView) -> (
    SetupView,
    AccountActionView,
) {
    match (s.phase, event) {
        (AccountPhase::Reading, AccountEventView::Read(read)) => match read {
            Err(m) => gives_up(s, AccountFault::Read, ""@, m),
            Ok(b) => match decoded_credentials(b) {
                Err(m) => gives_up(s, AccountFault::Decode, ""@, m),
                Ok(v) => goes_on(s, AccountPhase::Restoring, AccountActionView::Restore(v)),
            },
        },
        (AccountPhase::Restoring, AccountEventView::Done) => goes_on(
            s,
            AccountPhase::Over,
            AccountActionView::Ready,
        ),
        (AccountPhase::Restoring, AccountEventView::Failed(m)) => gives_up(
            s,
            AccountFault::Restore,
            ""@,
            m,
        ),
        (AccountPhase::Creating, AccountEventView::Created(v)) => match encoded_credentials(v) {
            Err(m) => gives_up(s, AccountFault::Serialise, ""@, m),
            Ok(b) => {
                let t = SetupView { bytes: b, ..s };
                match parent_of(s.path) {
                    Some(d) => goes_on(t, AccountPhase::MakingDir, AccountActionView::MakeDir(d)),
                    None => writes(t),
                }
            },
        },
        (AccountPhase::Creating, AccountEventView::Failed(m)) => gives_up(
            s,
            AccountFault::Create,
            s.directory_url,
            m,
        ),
        (AccountPhase::MakingDir, AccountEventView::Done) => writes(s),
        (AccountPhase::MakingDir, AccountEventView::Failed(m)) => gives_up(
            s,
            AccountFault::MakeDir,
            match parent_of(s.path) {
                Some(d) => d,
                None => ""@,
            },
            m,
        ),
        (AccountPhase::Writing, AccountEventView::Done) => goes_on(
            s,
            AccountPhase::SettingMode,
            AccountActionView::SetMode { path: temporary(s.path), mode: ACCOUNT_KEY_MODE },
        ),
        (AccountPhase::Writing, AccountEventView::Failed(m)) => gives_up(
            s,
            AccountFault::Write,
            temporary(s.path),
            m,
        ),
        (AccountPhase::SettingMode, AccountEventView::Done) => goes_on(
            s,
            AccountPhase::Renaming,
            AccountActionView::Rename { from: temporary(s.path), to: s.path },
        ),
        (AccountPhase::SettingMode, AccountEventView::Failed(m)) => gives_up(
            s,
            AccountFault::SetMode,
            temporary(s.path),
            m,
        ),
        (AccountPhase::Renaming, AccountEventView::Done) => goes_on(
            s,
            AccountPhase::Over,
            AccountActionView::Ready,
        ),
        (AccountPhase::Renaming, AccountEventView::Failed(m)) => gives_up(
            s,
            AccountFault::Rename,
            temporary(s.path),
            m,
        ),
        _ => goes_on(
            s,
            AccountPhase::Over,
            AccountActionView::Fail(
                AcmeErrorView::Account { host: "<global>"@, detail: "unexpected event"@ },
            ),
        ),
    }
}

impl AccountSetup {
    /// The temporary file.
    fn temporary_path(&self) -> (r: String)
        ensures
            r@ == temporary(self@.path),
    {
        proof {
            reveal_strlit("key.tmp");
        }
        with_extension(self.key.path.as_str(), "key.tmp")
    }

    /// Ends with a fault.
    fn give_up(&mut self, fault: AccountFault, other: &str, message: &str) -> (r: AccountAction)
        ensures
            (final(self)@, r@) == gives_up(old(self)@, fault, other@, message@),
    {
        self.phase = AccountPhase::Over;
        AccountAction::Fail(self.key.fault(fault, other, message))
    }

    /// Goes on with writing the bytes.
    fn write(&mut self) -> (r: AccountAction)
        ensures
            (final(self)@, r@) == writes(old(self)@),
    {
        self.phase = AccountPhase::Writing;
        let bytes = cut_bytes(self.bytes.as_slice(), 0, self.bytes.len());
        assert(bytes@ =~= self.bytes@);
        AccountAction::Write { path: self.temporary_path(), bytes }
    }

    /// Decides what follows an event. What is written for the credentials of a
    /// registered account reads back as these credentials.
    pub fn step(&mut self, event: AccountEvent) -> (r: AccountAction)
        ensures
            (final(self)@, r@) == account_step(old(self)@, event@),
            old(self)@.phase == AccountPhase::Creating && event is Created && encoded_credentials(
                event@->Created_0,
            ) is Ok ==> decoded_credentials(final(self)@.bytes) == Ok::<
                CredentialsView,
                Seq<char>,
            >(event@->Created_0),
    {
        match (self.phase, event) {
            (AccountPhase::Reading, AccountEvent::Read(read)) => {
                let found = match &read {
                    Ok(b) => self.key.read_credentials(Ok(b)),
                    Err(m) => self.key.read_credentials(Err(m.clone())),
                };
                match found {
                    Ok(c) => {
                        self.phase = AccountPhase::Restoring;
                        AccountAction::Restore(c)
                    },
                    Err(e) => {
                        self.phase = AccountPhase::Over;
                        AccountAction::Fail(e)
                    },
                }
            },
            (AccountPhase::Restoring, AccountEvent::Done) => {
                self.phase = AccountPhase::Over;
                AccountAction::Ready
            },
            (AccountPhase::Restoring, AccountEvent::Failed(m)) => {
                self.give_up(AccountFault::Restore, "", m.as_str())
            },
            (AccountPhase::Creating, AccountEvent::Created(c)) => {
                match self.key.write_credentials(&c) {
                    Err(e) => {
                        self.phase = AccountPhase::Over;
                        AccountAction::Fail(e)
                    },
                    Ok(b) => {
                        self.bytes = b;
                        match parent_dir(self.key.path.as_str()) {
                            Some(d) => {
                                self.phase = AccountPhase::MakingDir;
                                AccountAction::MakeDir(d)
                            },
                            None => self.write(),
                        }
                    },
                }
            },
            (AccountPhase::Creating, AccountEvent::Failed(m)) => {
                let url = self.directory_url.clone();
                self.give_up(AccountFault::Create, url.as_str(), m.as_str())
            },
            (AccountPhase::MakingDir, AccountEvent::Done) => self.write(),
            (AccountPhase::MakingDir, AccountEvent::Failed(m)) => {
                match parent_dir(self.key.path.as_str()) {
                    Some(d) => self.give_up(AccountFault::MakeDir, d.as_str(), m.as_str()),
                    None => self.give_up(AccountFault::MakeDir, "", m.as_str()),
                }
            },
            (AccountPhase::Writing, AccountEvent::Done) => {
                self.phase = AccountPhase::SettingMode;
                AccountAction::SetMode { path: self.temporary_path(), mode: ACCOUNT_KEY_MODE }
            },
            (AccountPhase::Writing, AccountEvent::Failed(m)) => {
                let tmp = self.temporary_path();
                self.give_up(AccountFault::Write, tmp.as_str(), m.as_str())
            },
            (AccountPhase::SettingMode, AccountEvent::Done) => {
                self.phase = AccountPhase::Renaming;
                AccountAction::Rename { from: self.temporary_path(), to: self.key.path.clone() }
            },
            (AccountPhase::SettingMode, AccountEvent::Failed(m)) => {
                let tmp = self.temporary_path();
                self.give_up(AccountFault::SetMode, tmp.as_str(), m.as_str())
            },
            (AccountPhase::Renaming, AccountEvent::Done) => {
                self.phase = AccountPhase::Over;
                AccountAction::Ready
            },
            (AccountPhase::Renaming, AccountEvent::Failed(m)) => {
                let tmp = self.temporary_path();
                self.give_up(AccountFault::Rename, tmp.as_str(), m.as_str())
            },
            _ => {
                self.phase = AccountPhase::Over;
                AccountAction::Fail(
                    AcmeError::Account {
                        host: "<global>".to_owned(),
                        detail: "unexpected event".to_owned(),
                    },
                )
            },
        }
    }
}

/// Law: a registered account is ready only once its credentials are in their
/// file, which only its owner can read: they are written under another name,
/// then the mode is set, then the file gets its name. An account is restored
/// from what its file holds, and from nothing else.
pub proof fn law_account_is_ready_once_kept(s: SetupView, event: AccountEventView)
    ensures
        ({
            let (t, action) = account_step(s, event);
            &&& t.path == s.path && t.directory_url == s.directory_url
            &&& action is Ready <==> event is Done && (s.phase == AccountPhase::Restoring || s.phase
                == AccountPhase::Renaming)
            &&& t.phase == AccountPhase::Renaming <==> event is Done && s.phase
                == AccountPhase::SettingMode
            &&& t.phase == AccountPhase::Renaming ==> action == (AccountActionView::Rename {
                from: temporary(s.path),
                to: s.path,
            })
            &&& t.phase == AccountPhase::SettingMode <==> event is Done && s.phase
                == AccountPhase::Writing
            &&& t.phase == AccountPhase::SettingMode ==> action == (AccountActionView::SetMode {
                path: temporary(s.path),
                mode: 0o600,
            })
            &&& t.phase == AccountPhase::Writing ==> action == (AccountActionView::Write {
                path: temporary(s.path),
                bytes: t.bytes,
            }) && (s.phase == AccountPhase::Creating || s.phase == AccountPhase::MakingDir)
            &&& t.bytes != s.bytes ==> event is Created && encoded_credentials(
                event->Created_0,
            ) == Ok::<Seq<u8>, Seq<char>>(t.bytes)
            &&& t.phase == AccountPhase::Restoring ==> event is Read && event->Read_0 is Ok
                && decoded_credentials(event->Read_0->Ok_0) is Ok && action
                == AccountActionView::Restore(decoded_credentials(event->Read_0->Ok_0)->Ok_0)
        }),
{
}

/// Law: where every step succeeds, a registered account's credentials go
/// through the whole sequence, and the account is ready.
pub proof fn law_registered_account_is_kept(s: SetupView, v: CredentialsView)
    requires
        s.phase == AccountPhase::Creating,
    ensures
        encoded_credentials(v) is Ok ==> ({
            let done = AccountEventView::Done;
            let tmp = temporary(s.path);
            let first = account_step(s, AccountEventView::Created(v));
            let a = if parent_of(s.path) is Some {
                account_step(first.0, done)
            } else {
                first
            };
            let b = account_step(a.0, done);
            let c = account_step(b.0, done);
            &&& parent_of(s.path) is Some ==> first.1 == AccountActionView::MakeDir(
                parent_of(s.path)->0,
            )
            &&& a.1 == (AccountActionView::Write {
                path: tmp,
                bytes: encoded_credentials(v)->Ok_0,
            })
            &&& b.1 == (AccountActionView::SetMode { path: tmp, mode: 0o600 })
            &&& c.1 == (AccountActionView::Rename { from: tmp, to: s.path })
            &&& account_step(c.0, done).1 == AccountActionView::Ready
        }),
{
}

/// Law: whatever fails, the setup ends there, with an error.
pub proof fn law_failed_account_setup_is_over(s: SetupView, message: Seq<char>)
    ensures
        account_step(s, AccountEventView::Failed(message)).0.phase == AccountPhase::Over,
        account_step(s, AccountEventView::Failed(message)).1 is Fail,
{
}

/// Law: an account whose file exists is read from it, and no other file; where
/// there is none, one is registered at the given directory, for the given
/// contact, with the given consent.
pub proof fn law_account_setup_begins(path: Seq<char>, url: Seq<char>, email: Seq<char>, agreed: bool)
    ensures
        first_action(path, true, url, email, agreed) == (AccountActionView::Read { path }),
        first_action(path, false, url, email, agreed) == (AccountActionView::Create {
            contact: "mailto:"@ + email,
            directory_url: url,
            terms_of_service_agreed: agreed,
        }),
        setup_begun(path, url, true).phase == AccountPhase::Reading,
        setup_begun(path, url, false).phase == AccountPhase::Creating,
        setup_begun(path, url, true).path == path && setup_begun(path, url, false).path == path,
        setup_begun(path, url, true).directory_url == url && setup_begun(
            path,
            url,
            false,
        ).directory_url == url,
{
}

/// Law: the credentials of an account are what its file holds. A file that
/// cannot be read or understood is an error of the account that names the file.
pub proof fn law_credentials_come_from_the_file(path: Seq<char>, bytes: Seq<u8>, m: Seq<char>)
    ensures
        decoded_credentials(bytes) is Ok ==> kept_credentials(path, Ok(bytes))
            == Ok::<CredentialsView, AcmeErrorView>(decoded_credentials(bytes)->Ok_0),
        decoded_credentials(bytes) is Err ==> kept_credentials(path, Ok(bytes)) == Err::<
            CredentialsView,
            AcmeErrorView,
        >(
            AcmeErrorView::Account {
                host: "<global>"@,
                detail: "decode "@ + path + ": "@ + decoded_credentials(bytes)->Err_0,
            },
        ),
        kept_credentials(path, Err(m)) == Err::<CredentialsView, AcmeErrorView>(
            AcmeErrorView::Account { host: "<global>"@, detail: "read "@ + path + ": "@ + m },
        ),
{
}

/// Law: a step that fails ends the setup with an error of the account that says
/// which step it was and repeats the message.
pub proof fn law_failed_account_step_is_named(s: SetupView, m: Seq<char>)
    ensures
        ({
            let said = |text: Seq<char>|
                AccountActionView::Fail(
                    AcmeErrorView::Account { host: "<global>"@, detail: text + ": "@ + m },
                );
            let tmp = temporary(s.path);
            let r = account_step(s, AccountEventView::Failed(m)).1;
            &&& s.phase == AccountPhase::Restoring ==> r == said(
                "reconstruct account from "@ + s.path,
            )
            &&& s.phase == AccountPhase::Creating ==> r == said(
                "Account::create against "@ + debug_text(s.directory_url),
            )
            &&& s.phase == AccountPhase::MakingDir && parent_of(s.path) is Some ==> r == said(
                "mkdir -p "@ + parent_of(s.path)->0,
            )
            &&& s.phase == AccountPhase::Writing ==> r == said("write "@ + tmp)
            &&& s.phase == AccountPhase::SettingMode ==> r == said("chmod 0600 "@ + tmp)
            &&& s.phase == AccountPhase::Renaming ==> r == said(
                "rename "@ + tmp + " -> "@ + s.path,
            )
        }),
{
}

} // verus!
