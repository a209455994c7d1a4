//! Where issued certificates lie on disk, and how they get there.

use vstd::prelude::*;
use vstd::string::*;

use crate::acme::client::IssuedCert;
use crate::acme::error::{AcmeError, AcmeErrorView};
use crate::path::{join_path, path_join};
use crate::text::{join2, join3, oct, oct_string, opt_view};

verus! {

broadcast use vstd::string::group_string_axioms;

/// The directory of a host.
pub open spec fn host_dir(storage_dir: Seq<char>, host: Seq<char>) -> Seq<char> {
    path_join(storage_dir, host)
}

/// The chain file of a host.
pub open spec fn chain_file(storage_dir: Seq<char>, host: Seq<char>) -> Seq<char> {
    path_join(host_dir(storage_dir, host), "fullchain.pem"@)
}

/// The key file of a host.
pub open spec fn key_file(storage_dir: Seq<char>, host: Seq<char>) -> Seq<char> {
    path_join(host_dir(storage_dir, host), "privkey.pem"@)
}

/// The chain and key files of a host.
pub fn paths(storage_dir: &str, host: &str) -> (r: (String, String))
    ensures
        r.0@ == chain_file(storage_dir@, host@),
        r.1@ == key_file(storage_dir@, host@),
{
    let dir = join_path(storage_dir, host);
    (join_path(dir.as_str(), "fullchain.pem"), join_path(dir.as_str(), "privkey.pem"))
}

/// One file to write: to a temporary name, with this mode, then renamed.
#[derive(Debug)]
pub struct FileWrite {
    pub tmp_path: String,
    pub final_path: String,
    pub bytes: Vec<u8>,
    pub mode: u32,
}

/// The model of a [`FileWrite`].
pub struct WriteView {
    pub tmp_path: Seq<char>,
    pub final_path: Seq<char>,
    pub bytes: Seq<u8>,
    pub mode: u32,
}

impl View for FileWrite {
    type V = WriteView;

    open spec fn view(&self) -> WriteView {
        WriteView {
            tmp_path: self.tmp_path@,
            final_path: self.final_path@,
            bytes: self.bytes@,
            mode: self.mode,
        }
    }
}

/// The write of a chain: readable by all.
pub open spec fn chain_write(storage_dir: Seq<char>, host: Seq<char>, chain: Seq<u8>) -> WriteView {
    WriteView {
        tmp_path: path_join(host_dir(storage_dir, host), "fullchain.pem.tmp"@),
        final_path: chain_file(storage_dir, host),
        bytes: chain,
        mode: 0o644,
    }
}

/// The write of a key: readable by its owner.
pub open spec fn key_write(storage_dir: Seq<char>, host: Seq<char>, key: Seq<u8>) -> WriteView {
    WriteView {
        tmp_path: path_join(host_dir(storage_dir, host), "privkey.pem.tmp"@),
        final_path: key_file(storage_dir, host),
        bytes: key,
        mode: 0o600,
    }
}

/// The writes that put a certificate in place, in order: the chain, readable by
/// all, then the key, readable by its owner.
pub fn plan_write(storage_dir: &str, host: &str, cert: &IssuedCert) -> (r: (String, FileWrite, FileWrite))
    ensures
        ({
            let dir = host_dir(storage_dir@, host@);
            &&& r.0@ == dir
            &&& r.1@ == chain_write(storage_dir@, host@, cert.fullchain_pem@)
            &&& r.2@ == key_write(storage_dir@, host@, cert.privkey_pem@)
            &&& r.1.tmp_path@ == path_join(dir, "fullchain.pem.tmp"@)
            &&& r.1.final_path@ == path_join(dir, "fullchain.pem"@)
            &&& r.1.bytes@ == cert.fullchain_pem@
            &&& r.1.mode == 0o644
            &&& r.2.tmp_path@ == path_join(dir, "privkey.pem.tmp"@)
            &&& r.2.final_path@ == path_join(dir, "privkey.pem"@)
            &&& r.2.bytes@ == cert.privkey_pem@
            &&& r.2.mode == 0o600
        }),
{
    let dir = join_path(storage_dir, host);
    let chain = FileWrite {
        tmp_path: join_path(dir.as_str(), "fullchain.pem.tmp"),
        final_path: join_path(dir.as_str(), "fullchain.pem"),
        bytes: crate::proxy_protocol::cut_bytes(
            cert.fullchain_pem.as_slice(),
            0,
            cert.fullchain_pem.len(),
        ),
        mode: 0o644,
    };
    let key = FileWrite {
        tmp_path: join_path(dir.as_str(), "privkey.pem.tmp"),
        final_path: join_path(dir.as_str(), "privkey.pem"),
        bytes: crate::proxy_protocol::cut_bytes(
            cert.privkey_pem.as_slice(),
            0,
            cert.privkey_pem.len(),
        ),
        mode: 0o600,
    };
    assert(chain.bytes@ =~= cert.fullchain_pem@);
    assert(key.bytes@ =~= cert.privkey_pem@);
    (dir, chain, key)
}

/// The directory that issued certificates are kept in.
pub open spec fn storage_root(configured: Option<Seq<char>>, server_cert_dir: Seq<char>) -> Seq<
    char,
> {
    match configured {
        Some(d) => d,
        None => server_cert_dir,
    }
}

/// Where issued certificates are kept: in the configured directory, and where
/// none is configured in the directory of the server's certificates.
pub fn storage_dir(configured: &Option<String>, server_cert_dir: &str) -> (r: String)
    ensures
        r@ == storage_root(opt_view(*configured), server_cert_dir@),
{
    match configured {
        Some(d) => d.clone(),
        None => server_cert_dir.to_owned(),
    }
}

/// What went wrong with a write.
#[derive(Clone, Copy, Debug, PartialEq, Eq, Structural)]
pub enum WriteFault {
    Open,
    Write,
    SetMode,
    Sync,
    Rename,
}

/// The detail of the error of a write.
pub open spec fn write_detail(
    tmp: Seq<char>,
    target: Seq<char>,
    mode: u32,
    fault: WriteFault,
    message: Seq<char>,
) -> Seq<char> {
    match fault {
        WriteFault::Open => "open "@ + tmp + ": "@ + message,
        WriteFault::Write => "write "@ + tmp + ": "@ + message,
        WriteFault::SetMode => "chmod "@ + tmp + " "@ + oct(mode as nat) + ": "@ + message,
        WriteFault::Sync => "fsync "@ + tmp + ": "@ + message,
        WriteFault::Rename => "rename "@ + tmp + " -> "@ + target + ": "@ + message,
    }
}

/// The error where a host's directory cannot be made.
pub fn dir_fault(host: &str, dir: &str, message: &str) -> (r: AcmeError)
    ensures
        r@ == (AcmeErrorView::Storage {
            host: host@,
            detail: "create_dir_all "@ + dir@ + ": "@ + message@,
        }),
{
    let mut d = join3("create_dir_all ", dir, ": ");
    d.append(message);
    assert(d@ =~= "create_dir_all "@ + dir@ + ": "@ + message@);
    AcmeError::Storage { host: host.to_owned(), detail: d }
}

impl FileWrite {
    /// The error where a part of the write failed.
    pub fn fault(&self, host: &str, fault: WriteFault, message: &str) -> (r: AcmeError)
        ensures
            r@ == (AcmeErrorView::Storage {
                host: host@,
                detail: write_detail(
                    self.tmp_path@,
                    self.final_path@,
                    self.mode,
                    fault,
                    message@,
                ),
            }),
    {
        let tmp = self.tmp_path.as_str();
        let mut d: String;
        match fault {
            WriteFault::Open => {
                d = join2("open ", tmp);
            },
            WriteFault::Write => {
                d = join2("write ", tmp);
            },
            WriteFault::SetMode => {
                d = join3("chmod ", tmp, " ");
                d.append(oct_string(self.mode as u64).as_str());
            },
            WriteFault::Sync => {
                d = join2("fsync ", tmp);
            },
            WriteFault::Rename => {
                d = join3("rename ", tmp, " -> ");
                d.append(self.final_path.as_str());
            },
        }
        d.append(": ");
        d.append(message);
        assert(d@ =~= write_detail(
            self.tmp_path@,
            self.final_path@,
            self.mode,
            fault,
            message@,
        ));
        AcmeError::Storage { host: host.to_owned(), detail: d }
    }
}

/// Law: a certificate is written exactly where the convention directory of the
/// certificate store looks for it.
pub proof fn law_writes_go_where_the_store_looks(storage_dir: Seq<char>, host: Seq<char>)
    ensures
        chain_file(storage_dir, host) == crate::certs::loader::conv_cert(storage_dir, host),
        key_file(storage_dir, host) == crate::certs::loader::conv_key(storage_dir, host),
        path_join(host_dir(storage_dir, host), "fullchain.pem"@) == crate::certs::loader::conv_cert(
            storage_dir,
            host,
        ),
        path_join(host_dir(storage_dir, host), "privkey.pem"@) == crate::certs::loader::conv_key(
            storage_dir,
            host,
        ),
{
}

/// Law: each file is written beside its final place under a name that ends in
/// `.tmp`, with the bytes it is meant to hold; anyone may read the chain, and
/// only the owner the key.
pub proof fn law_key_is_for_its_owner_only(
    storage_dir: Seq<char>,
    host: Seq<char>,
    chain: Seq<u8>,
    key: Seq<u8>,
)
    ensures
        ({
            let c = chain_write(storage_dir, host, chain);
            let k = key_write(storage_dir, host, key);
            &&& c.final_path == crate::certs::loader::conv_cert(storage_dir, host)
            &&& k.final_path == crate::certs::loader::conv_key(storage_dir, host)
            &&& c.tmp_path == c.final_path + ".tmp"@
            &&& k.tmp_path == k.final_path + ".tmp"@
            &&& c.bytes == chain
            &&& k.bytes == key
            &&& c.mode == 6 * 64 + 4 * 8 + 4
            &&& k.mode == 6 * 64
        }),
{
    reveal_strlit("fullchain.pem");
    reveal_strlit("privkey.pem");
    reveal_strlit("fullchain.pem.tmp");
    reveal_strlit("privkey.pem.tmp");
    reveal_strlit(".tmp");
    assert("fullchain.pem.tmp"@ =~= "fullchain.pem"@ + ".tmp"@);
    assert("privkey.pem.tmp"@ =~= "privkey.pem"@ + ".tmp"@);
    let c = chain_write(storage_dir, host, chain);
    let k = key_write(storage_dir, host, key);
    assert(c.tmp_path =~= c.final_path + ".tmp"@);
    assert(k.tmp_path =~= k.final_path + ".tmp"@);
}

/// Law: the configured directory has the preference over the server's.
pub proof fn law_configured_directory_is_preferred(dir: Seq<char>, server: Seq<char>)
    ensures
        storage_root(Some(dir), server) == dir,
        storage_root(None, server) == server,
{
}

/// Law: the error of a failed write says which part of it failed and on which
/// file, and ends with the cause; a rename names both files, and a change of
/// mode the mode in octal.
pub proof fn law_failed_write_is_named(
    tmp: Seq<char>,
    target: Seq<char>,
    mode: u32,
    cause: Seq<char>,
)
    ensures
        write_detail(tmp, target, mode, WriteFault::Open, cause) == "open "@ + tmp + ": "@ + cause,
        write_detail(tmp, target, mode, WriteFault::Write, cause) == "write "@ + tmp + ": "@ + cause,
        write_detail(tmp, target, mode, WriteFault::Sync, cause) == "fsync "@ + tmp + ": "@ + cause,
        write_detail(tmp, target, mode, WriteFault::SetMode, cause) == "chmod "@ + tmp + " "@ + oct(
            mode as nat,
        ) + ": "@ + cause,
        write_detail(tmp, target, mode, WriteFault::Rename, cause) == "rename "@ + tmp + " -> "@
            + target + ": "@ + cause,
{
}

} // verus!
