//! The sealed file of a vault, and the key that opens it.
//!
//! A file is a header of 33 bytes and the sealed plain bytes of the vault. The header is `SOLX`,
//! the version, the salt of the key and a nonce; it is authenticated with the rest.
use aes_gcm_siv::aead::{AeadInPlace, KeyInit};
use vstd::prelude::*;
use vstd::string::*;
use vstd::utf8::*;

use crate::codec::{lemma_vault_len, lengths_fit, read_bytes_are_canonical,
    read_vault_is_well_formed, vault_bytes, vault_of_bytes, vault_round_trip, within_limits,
    VERSION};
use crate::error::Error;
use crate::random::random_array;
use crate::secret::{SecretArray, SecretBytes};
use crate::text::{hex_text, hexadecimal, same_bytes};
use crate::vault::{Vault, VaultView};

verus! {

/// The length of the header.
pub const HEADER_LEN: usize = 33;

/// The length of the authentication tag.
pub const TAG_LEN: usize = 16;

/// The largest file that is read.
pub const MAX_FILE: u64 = 1024 * 1024;

/// The cost parameters of the key derivation.
pub const SCRYPT_LOG_N: u8 = 15;

pub const SCRYPT_R: u32 = 8;

pub const SCRYPT_P: u32 = 1;

/// How many bytes can be sealed at once.
pub const SEAL_LIMIT: u64 = 0x10_0000_0000;

// ---------------------------------------------------------------------------------------------
// What the outside crates compute
// ---------------------------------------------------------------------------------------------
/// The 32 bytes that scrypt makes of a password.
pub uninterp spec fn scrypt_key(
    password: Seq<u8>,
    salt: Seq<u8>,
    log_n: u8,
    r: u32,
    p: u32,
) -> Seq<u8>;

/// What AES-256-GCM-SIV seals some bytes to, with a header that is authenticated beside them.
pub uninterp spec fn aead_sealed(
    key: Seq<u8>,
    nonce: Seq<u8>,
    header: Seq<u8>,
    plain: Seq<u8>,
) -> Seq<u8>;

/// What AES-256-GCM-SIV opens sealed bytes to, where they are authentic.
pub uninterp spec fn aead_opened(
    key: Seq<u8>,
    nonce: Seq<u8>,
    header: Seq<u8>,
    sealed: Seq<u8>,
) -> Option<Seq<u8>>;

/// Calls `scrypt::scrypt` for 32 bytes, which fails on no such parameters. The key is only named.
#[verifier::external_body]
fn scrypt_into(
    password: &[u8],
    salt: &[u8; 16],
    log_n: u8,
    r: u32,
    p: u32,
    key: &mut [u8; 32],
)
    requires
        1 <= log_n <= 20,
        1 <= r <= 8,
        1 <= p <= 8,
    ensures
        final(key)@ == scrypt_key(password@, salt@, log_n, r, p),
{
    let params = scrypt::Params::new(log_n, r, p).unwrap();
    scrypt::scrypt(password, salt, &params, &mut key[..]).unwrap()
}

/// Calls `AeadInPlace::encrypt_in_place` of `Aes256GcmSiv`: the bytes are replaced by the sealed
/// ones, which are 16 longer, unless there are too many. What they are sealed to is only named,
/// with the fact that opening gives the bytes back.
#[verifier::external_body]
fn seal_in_place(key: &[u8; 32], nonce: &[u8; 12], header: &[u8; 33], bytes: &mut Vec<u8>) -> (done:
    bool)
    ensures
        done <==> old(bytes)@.len() <= SEAL_LIMIT,
        done ==> final(bytes)@ == aead_sealed(key@, nonce@, header@, old(bytes)@),
        done ==> final(bytes)@.len() == old(bytes)@.len() + TAG_LEN,
        done ==> aead_opened(key@, nonce@, header@, final(bytes)@) == Some(old(bytes)@),
{
    aes_gcm_siv::Aes256GcmSiv::new_from_slice(&key[..])
        .unwrap()
        .encrypt_in_place(aes_gcm_siv::Nonce::from_slice(&nonce[..]), &header[..], bytes)
        .is_ok()
}

/// Calls `AeadInPlace::decrypt_in_place` of `Aes256GcmSiv`: sealed bytes are replaced by what they
/// open to, where they are authentic. What they open to is only named, with the fact that sealing
/// it again gives the same sealed bytes.
#[verifier::external_body]
fn open_in_place(key: &[u8; 32], nonce: &[u8; 12], header: &[u8; 33], bytes: &mut Vec<u8>) -> (done:
    bool)
    ensures
        done <==> aead_opened(key@, nonce@, header@, old(bytes)@) is Some,
        done ==> final(bytes)@ == aead_opened(key@, nonce@, header@, old(bytes)@)->Some_0,
        done && final(bytes)@.len() <= SEAL_LIMIT ==> aead_sealed(
            key@,
            nonce@,
            header@,
            final(bytes)@,
        ) == old(bytes)@,
{
    aes_gcm_siv::Aes256GcmSiv::new_from_slice(&key[..])
        .unwrap()
        .decrypt_in_place(aes_gcm_siv::Nonce::from_slice(&nonce[..]), &header[..], bytes)
        .is_ok()
}

// ---------------------------------------------------------------------------------------------
// The model
// ---------------------------------------------------------------------------------------------
/// The first bytes of a file: `SOLX`.
pub open spec fn magic() -> Seq<u8> {
    seq![0x53u8, 0x4fu8, 0x4cu8, 0x58u8]
}

/// The header of a file.
pub open spec fn header_bytes(version: u8, salt: Seq<u8>, nonce: Seq<u8>) -> Seq<u8> {
    magic() + seq![version] + salt + nonce
}

/// A file with a header that is understood and room for a tag.
pub open spec fn has_header(file: Seq<u8>) -> bool {
    &&& file.len() >= HEADER_LEN + TAG_LEN
    &&& file.subrange(0, 4) == magic()
    &&& file[4] == 1 || file[4] == VERSION
}

/// The salt in the header of a file.
pub open spec fn salt_of(file: Seq<u8>) -> Seq<u8> {
    file.subrange(5, 21)
}

/// A session: the salt of a vault, and the key.
pub struct SessionView {
    pub salt: Seq<u8>,
    pub key: Seq<u8>,
}

/// The session of a password for a salt.
pub open spec fn password_session(password: Seq<char>, salt: Seq<u8>) -> SessionView {
    SessionView {
        salt,
        key: scrypt_key(encode_utf8(password), salt, SCRYPT_LOG_N, SCRYPT_R, SCRYPT_P),
    }
}

impl SessionView {
    /// The file that a vault is sealed to with a nonce.
    pub open spec fn file(self, vault: VaultView, nonce: Seq<u8>) -> Seq<u8> {
        let header = header_bytes(VERSION, self.salt, nonce);
        header + aead_sealed(self.key, nonce, header, vault_bytes(vault))
    }

    /// The vault that a file opens to, or what is wrong with the file.
    pub open spec fn vault(self, file: Seq<u8>) -> Result<VaultView, Error> {
        if !has_header(file) || salt_of(file) != self.salt {
            Err(Error::CorruptVault)
        } else {
            match aead_opened(
                self.key,
                file.subrange(21, 33),
                file.subrange(0, 33),
                file.subrange(33, file.len() as int),
            ) {
                None => Err(Error::WrongPassword),
                Some(plain) => vault_of_bytes(plain, file[4]),
            }
        }
    }
}

// ---------------------------------------------------------------------------------------------
// The key
// ---------------------------------------------------------------------------------------------
/// The key of a session, at an address of its own that can be locked into memory before the key
/// is made there.
pub struct SessionKey {
    bytes: Box<SecretArray<32>>,
}

impl View for SessionKey {
    type V = Seq<u8>;

    closed spec fn view(&self) -> Seq<u8> {
        self.bytes@
    }
}

impl SessionKey {
    /// The number of bytes is fixed.
    pub proof fn lemma_len(&self)
        ensures
            self@.len() == 32,
    {
        self.bytes.lemma_len();
    }

    /// A key with these bytes.
    pub fn new(bytes: [u8; 32]) -> (key: Self)
        ensures
            key@ == bytes@,
    {
        SessionKey { bytes: Box::new(SecretArray::new(bytes)) }
    }

    /// Room for a key.
    pub fn zeroed() -> (key: Self)
        ensures
            key@ == Seq::new(32, |i: int| 0u8),
    {
        let key = SessionKey::new([0;32]);
        assert(key@ =~= Seq::new(32, |i: int| 0u8));
        key
    }

    /// The bytes of the key.
    pub fn as_array(&self) -> (bytes: &[u8; 32])
        ensures
            bytes@ == self@,
    {
        self.bytes.as_array()
    }

    /// Makes the key of a password.
    pub fn derive(&mut self, password: &str, salt: &[u8; 16]) -> (result: Result<(), Error>)
        ensures
            password@.len() == 0 ==> result == Err::<(), Error>(Error::EmptyPassword)
                && final(self)@ == old(self)@,
            password@.len() > 0 ==> result is Ok && final(self)@ == password_session(
                password@,
                salt@,
            ).key,
    {
        if password.unicode_len() == 0 {
            return Err(Error::EmptyPassword);
        }
        scrypt_into(
            password.as_bytes(),
            salt,
            SCRYPT_LOG_N,
            SCRYPT_R,
            SCRYPT_P,
            self.bytes.as_mut_array(),
        );
        Ok(())
    }
}

// ---------------------------------------------------------------------------------------------
// Sessions
// ---------------------------------------------------------------------------------------------
/// An unlocked vault file: its salt and its key.
pub struct Session {
    salt: [u8; 16],
    key: SessionKey,
}

impl View for Session {
    type V = SessionView;

    closed spec fn view(&self) -> SessionView {
        SessionView { salt: self.salt@, key: self.key@ }
    }
}

/// Copies part of some bytes.
fn part<const N: usize>(bytes: &[u8], start: usize) -> (array: [u8; N])
    requires
        start + N <= bytes@.len(),
    ensures
        array@ == bytes@.subrange(start as int, start + N),
{
    let mut array: [u8; N] = [0;N];
    let len: usize = bytes.len();
    let mut i: usize = 0;
    while i < N
        invariant
            i <= N,
            start + N <= bytes@.len(),
            len == bytes@.len(),
            array@.len() == N,
            forall|k: int| 0 <= k < i ==> array@[k] == bytes@[start + k],
        decreases N - i,
    {
        array[i] = bytes[start + i];
        i += 1;
    }
    assert(array@ =~= bytes@.subrange(start as int, start + N));
    array
}

/// Tells whether a file has a header that is understood.
fn header_ok(file: &[u8]) -> (ok: bool)
    ensures
        ok == has_header(file@),
{
    if file.len() < HEADER_LEN + TAG_LEN {
        return false;
    }
    let first = part::<4>(file, 0);
    let magic_bytes: [u8; 4] = [0x53, 0x4f, 0x4c, 0x58];
    assert(magic_bytes@ =~= magic());
    same_bytes(&first, &magic_bytes) && (file[4] == 1 || file[4] == VERSION)
}

impl Session {
    /// The salt and the key have fixed lengths.
    pub proof fn lemma_lengths(&self)
        ensures
            self@.salt.len() == 16,
            self@.key.len() == 32,
    {
        self.key.lemma_len();
    }

    /// A session with a key that is known.
    pub fn from_key(salt: [u8; 16], key: SessionKey) -> (session: Self)
        ensures
            session@ == (SessionView { salt: salt@, key: key@ }),
    {
        Session { salt, key }
    }

    /// The session of a password for a salt. The key is made in the room that is given for it.
    pub fn for_password(password: &str, salt: [u8; 16], key: SessionKey) -> (session: Result<
        Session,
        Error,
    >)
        ensures
            password@.len() == 0 ==> session == Err::<Session, Error>(Error::EmptyPassword),
            password@.len() > 0 ==> (session matches Ok(s) && s@ == password_session(
                password@,
                salt@,
            )),
    {
        let mut key = key;
        match key.derive(password, &salt) {
            Ok(()) => Ok(Session { salt, key }),
            Err(error) => Err(error),
        }
    }

    /// A session for a new vault file, with a fresh salt.
    pub fn create(exists: bool, password: &str, key: SessionKey) -> (session: Result<
        Session,
        Error,
    >)
        ensures
            exists ==> session == Err::<Session, Error>(Error::VaultExists),
            !exists ==> match session {
                Ok(s) => password@.len() > 0 && s@ == password_session(password@, s@.salt)
                    && s@.salt.len() == 16,
                Err(error) => error == Error::NoRandomness || (password@.len() == 0 && error
                    == Error::EmptyPassword),
            },
    {
        if exists {
            return Err(Error::VaultExists);
        }
        match random_array::<16>() {
            Some(salt) => Session::for_password(password, salt, key),
            None => Err(Error::NoRandomness),
        }
    }

    /// Opens a vault file with a password, if the password is right.
    pub fn open(encrypted: Vec<u8>, password: &str, key: SessionKey) -> (session: Result<
        Session,
        Error,
    >)
        ensures
            ({
                let view = password_session(password@, salt_of(encrypted@));
                if !has_header(encrypted@) {
                    session == Err::<Session, Error>(Error::CorruptVault)
                } else if password@.len() == 0 {
                    session == Err::<Session, Error>(Error::EmptyPassword)
                } else {
                    match view.vault(encrypted@) {
                        Ok(_) => session matches Ok(s) && s@ == view,
                        Err(error) => session == Err::<Session, Error>(error),
                    }
                }
            }),
    {
        if !header_ok(encrypted.as_slice()) {
            return Err(Error::CorruptVault);
        }
        let salt = part::<16>(encrypted.as_slice(), 5);
        let session = match Session::for_password(password, salt, key) {
            Ok(session) => session,
            Err(error) => return Err(error),
        };
        match session.load(encrypted) {
            Ok(_) => Ok(session),
            Err(error) => Err(error),
        }
    }

    /// Reads the vault in a file. The vault remembers the file, so that a later save can tell
    /// whether the file has changed. A file of the current version is the one that the vault is
    /// sealed to with its nonce.
    pub fn load(&self, encrypted: Vec<u8>) -> (vault: Result<Vault, Error>)
        ensures
            match self@.vault(encrypted@) {
                Ok(v) => vault matches Ok(r) && r@ == v && v.wf() && (r.source_bytes matches Some(
                    bytes,
                ) && bytes@ == encrypted@) && (encrypted@[4] == VERSION ==> encrypted@ == self@.file(
                    v,
                    encrypted@.subrange(21, 33),
                )),
                Err(error) => vault == Err::<Vault, Error>(error),
            },
    {
        if !header_ok(encrypted.as_slice()) {
            return Err(Error::CorruptVault);
        }
        let salt = part::<16>(encrypted.as_slice(), 5);
        if !same_bytes(&salt, &self.salt) {
            return Err(Error::CorruptVault);
        }
        let nonce = part::<12>(encrypted.as_slice(), 21);
        let header = part::<33>(encrypted.as_slice(), 0);
        let mut plain = SecretBytes::copy_of(&encrypted.as_slice()[HEADER_LEN..encrypted.len()]);
        if !open_in_place(self.key.as_array(), &nonce, &header, plain.buffer()) {
            return Err(Error::WrongPassword);
        }
        match Vault::decode(plain.as_slice(), encrypted[4]) {
            Ok(vault) => {
                proof {
                    read_vault_is_well_formed(plain@, encrypted@[4]);
                    if encrypted@[4] == VERSION {
                        read_bytes_are_canonical(plain@);
                        lemma_vault_len(vault@);
                        assert(header@ =~= header_bytes(VERSION, self.salt@, nonce@)) by {
                            let file = encrypted@;
                            assert(file.subrange(0, 33) =~= file.subrange(0, 4) + seq![file[4]]
                                + file.subrange(5, 21) + file.subrange(21, 33));
                        }
                        assert(encrypted@ =~= header@ + encrypted@.subrange(
                            33,
                            encrypted@.len() as int,
                        ));
                    }
                }
                let mut vault = vault;
                vault.source_bytes = Some(encrypted);
                Ok(vault)
            },
            Err(error) => Err(error),
        }
    }

    /// The file of a vault, sealed with a nonce. It is never too large to be read, and the session
    /// reads the vault back from it.
    pub fn seal(&self, vault: &Vault, nonce: &[u8; 12]) -> (file: Result<Vec<u8>, Error>)
        requires
            lengths_fit(vault@),
        ensures
            !within_limits(vault@) ==> file == Err::<Vec<u8>, Error>(Error::VaultLimits),
            within_limits(vault@) ==> (file matches Ok(f) && f@ == self@.file(vault@, nonce@)),
            vault@.wf() ==> (file matches Ok(f) && self@.vault(f@) == Ok::<VaultView, Error>(
                vault@,
            )),
            file matches Ok(f) ==> f@.len() <= MAX_FILE,
    {
        let mut header: [u8; 33] = [0;33];
        header[0] = 0x53;
        header[1] = 0x4f;
        header[2] = 0x4c;
        header[3] = 0x58;
        header[4] = VERSION;
        let mut i: usize = 0;
        while i < 16
            invariant
                i <= 16,
                header@.len() == 33,
                header@.subrange(0, 5) == magic() + seq![VERSION],
                forall|k: int| 0 <= k < i ==> header@[5 + k] == self.salt@[k],
            decreases 16 - i,
        {
            let ghost before = header@;
            header[5 + i] = self.salt[i];
            assert(header@.subrange(0, 5) =~= before.subrange(0, 5));
            i += 1;
        }
        let mut i: usize = 0;
        while i < 12
            invariant
                i <= 12,
                header@.len() == 33,
                header@.subrange(0, 5) == magic() + seq![VERSION],
                forall|k: int| 0 <= k < 16 ==> header@[5 + k] == self.salt@[k],
                forall|k: int| 0 <= k < i ==> header@[21 + k] == nonce@[k],
            decreases 12 - i,
        {
            let ghost before = header@;
            header[21 + i] = nonce[i];
            assert(header@.subrange(0, 5) =~= before.subrange(0, 5));
            i += 1;
        }
        proof {
            assert forall|k: int| 0 <= k < 5 implies #[trigger] header@[k] == (magic()
                + seq![VERSION])[k] by {
                assert(header@[k] == header@.subrange(0, 5)[k]);
            }
            assert(header@ =~= header_bytes(VERSION, self.salt@, nonce@));
        }
        let mut bytes = match vault.encode() {
            Ok(bytes) => bytes,
            Err(error) => return Err(error),
        };
        if !seal_in_place(self.key.as_array(), nonce, &header, bytes.buffer()) {
            return Err(Error::EncryptionFailed);
        }
        let mut file: Vec<u8> = Vec::with_capacity(HEADER_LEN + bytes.len());
        file.extend_from_slice(&header);
        file.extend_from_slice(bytes.as_slice());
        proof {
            assert(file@ =~= header@ + bytes@);
            assert(file@.subrange(0, 4) =~= magic());
            assert(file@.subrange(5, 21) =~= self.salt@);
            assert(file@.subrange(21, 33) =~= nonce@);
            assert(file@.subrange(0, 33) =~= header@);
            assert(file@.subrange(33, file@.len() as int) =~= bytes@);
            assert(file@[4] == VERSION);
            if vault@.wf() {
                vault_round_trip(vault@);
            }
        }
        Ok(file)
    }

    /// The file of a vault, sealed with a fresh nonce.
    pub fn save(&self, vault: &Vault) -> (file: Result<Vec<u8>, Error>)
        requires
            lengths_fit(vault@),
        ensures
            match file {
                Ok(f) => within_limits(vault@) && (exists|nonce: Seq<u8>|
                    nonce.len() == 12 && f@ == #[trigger] self@.file(vault@, nonce)) && (
                vault@.wf() ==> self@.vault(f@) == Ok::<VaultView, Error>(vault@)) && f@.len()
                    <= MAX_FILE,
                Err(error) => error == Error::NoRandomness || (!within_limits(vault@) && error
                    == Error::VaultLimits),
            },
    {
        match random_array::<12>() {
            Some(nonce) => self.seal(vault, &nonce),
            None => Err(Error::NoRandomness),
        }
    }
}

// ---------------------------------------------------------------------------------------------
// Files
// ---------------------------------------------------------------------------------------------
/// The permission bits of everyone but the owner.
pub const OTHERS: u32 = 0o077;

/// Checks what the system tells of a vault file before it is read: whether it is a regular file,
/// its length and, where the system has them, its permissions.
pub fn check_vault_file(is_file: bool, len: u64, mode: Option<u32>) -> (result: Result<(), Error>)
    ensures
        if !is_file || len > MAX_FILE {
            result == Err::<(), Error>(Error::VaultFile)
        } else if mode matches Some(bits) && bits & OTHERS != 0 {
            result == Err::<(), Error>(Error::VaultPermissions)
        } else {
            result is Ok
        },
{
    if !is_file || len > MAX_FILE {
        return Err(Error::VaultFile);
    }
    if let Some(bits) = mode {
        if bits & OTHERS != 0 {
            return Err(Error::VaultPermissions);
        }
    }
    Ok(())
}

/// Checks how much was read of a vault file.
pub fn check_vault_size(len: u64) -> (result: Result<(), Error>)
    ensures
        len > MAX_FILE ==> result == Err::<(), Error>(Error::VaultGrew),
        len <= MAX_FILE ==> result is Ok,
{
    if len > MAX_FILE {
        Err(Error::VaultGrew)
    } else {
        Ok(())
    }
}

/// Checks what the system tells of the directory of a vault.
pub fn check_vault_directory(is_dir: bool, mode: u32) -> (result: Result<(), Error>)
    ensures
        !is_dir || mode & OTHERS != 0 ==> result == Err::<(), Error>(Error::VaultDirectory),
        is_dir && mode & OTHERS == 0 ==> result is Ok,
{
    if !is_dir || mode & OTHERS != 0 {
        Err(Error::VaultDirectory)
    } else {
        Ok(())
    }
}

/// What was found where a vault is to be written.
pub enum Found {
    /// A file, with what it holds. For a new vault it is enough that it is there.
    File(Vec<u8>),
    /// No file, with the error that says so.
    Absent(Error),
    /// It could not be found out.
    Failed(Error),
}

/// Why a vault must not be written over what was found. A vault with a source was read from it;
/// without one it is new. What cannot be read cannot be what the vault was read from, and the error
/// of reading it stands.
pub open spec fn write_refused(source: Option<Seq<u8>>, found: Found) -> Option<Error> {
    match (source, found) {
        (Some(original), Found::File(bytes)) => if original == bytes@ {
            None
        } else {
            Some(Error::VaultChanged)
        },
        (Some(_), Found::Absent(error)) => Some(error),
        (None, Found::File(_)) => Some(Error::VaultExists),
        (None, Found::Absent(_)) => None,
        (_, Found::Failed(error)) => Some(error),
    }
}

/// The bytes of a file, where there is one.
pub open spec fn file_bytes(file: Option<Vec<u8>>) -> Option<Seq<u8>> {
    match file {
        Some(bytes) => Some(bytes@),
        None => None,
    }
}

impl Vault {
    /// Checks that the vault may be written: the file still holds what the vault was read from, or
    /// there is no file and the vault is new.
    pub fn check_source(&self, found: Found) -> (result: Result<(), Error>)
        ensures
            match write_refused(file_bytes(self.source_bytes), found) {
                Some(error) => result == Err::<(), Error>(error),
                None => result is Ok,
            },
    {
        match (&self.source_bytes, found) {
            (Some(original), Found::File(bytes)) => {
                if same_bytes(original.as_slice(), bytes.as_slice()) {
                    Ok(())
                } else {
                    Err(Error::VaultChanged)
                }
            },
            (Some(_), Found::Absent(error)) => Err(error),
            (None, Found::File(_)) => Err(Error::VaultExists),
            (None, Found::Absent(_)) => Ok(()),
            (_, Found::Failed(error)) => Err(error),
        }
    }

    /// Remembers that the vault was written to a file.
    pub fn written(&mut self, file: Vec<u8>)
        ensures
            final(self)@ == old(self)@,
            final(self).source_bytes == Some(file),
    {
        self.source_bytes = Some(file);
    }
}

/// A number from eight little-endian bytes.
pub open spec fn from_le64(b: Seq<u8>) -> nat {
    (b[0] + 0x100 * b[1] + 0x1_0000 * b[2] + 0x100_0000 * b[3] + 0x1_0000_0000 * b[4]
        + 0x100_0000_0000 * b[5] + 0x1_0000_0000_0000 * b[6] + 0x100_0000_0000_0000 * b[7]) as nat
}

/// The name of the file that a vault is written to before it takes its place.
pub fn temporary_name(random: &[u8; 8]) -> (name: String)
    ensures
        name@ == ".vault-"@ + hex_text(from_le64(random@), 16) + ".tmp"@,
{
    let n: u64 = random[0] as u64 + 0x100 * (random[1] as u64) + 0x1_0000 * (random[2] as u64)
        + 0x100_0000 * (random[3] as u64) + 0x1_0000_0000 * (random[4] as u64) + 0x100_0000_0000 * (
    random[5] as u64) + 0x1_0000_0000_0000 * (random[6] as u64) + 0x100_0000_0000_0000 * (
    random[7] as u64);
    ".vault-".to_owned().concat(hexadecimal(n, 16).as_str()).concat(".tmp")
}

/// A fresh name for the file that a vault is written to before it takes its place.
pub fn fresh_temporary_name() -> (name: Result<String, Error>)
    ensures
        match name {
            Ok(n) => exists|random: Seq<u8>|
                random.len() == 8 && n@ == ".vault-"@ + #[trigger] hex_text(from_le64(random), 16)
                    + ".tmp"@,
            Err(error) => error == Error::NoRandomness,
        },
{
    match random_array::<8>() {
        Some(random) => Ok(temporary_name(&random)),
        None => Err(Error::NoRandomness),
    }
}

// ---------------------------------------------------------------------------------------------
// Laws
// ---------------------------------------------------------------------------------------------
/// A file that the session of a password reads can be opened with that password, and gives the same
/// vault. Every file that the session has saved is such a file.
pub proof fn saved_vaults_open_with_the_password(
    password: Seq<char>,
    salt: Seq<u8>,
    file: Seq<u8>,
    vault: VaultView,
)
    requires
        password_session(password, salt).vault(file) == Ok::<VaultView, Error>(vault),
    ensures
        has_header(file),
        password_session(password, salt_of(file)) == password_session(password, salt),
        password_session(password, salt_of(file)).vault(file) == Ok::<VaultView, Error>(vault),
{
}

/// A changed file is never taken for the same vault: of the files with one nonce, a session reads a
/// vault from one at most. Every file of the current version that it reads is the one that the
/// vault is sealed to, as loading states.
pub proof fn changed_files_are_not_the_same_vault(
    session: SessionView,
    file: Seq<u8>,
    changed: Seq<u8>,
    vault: VaultView,
)
    requires
        session.vault(file) == Ok::<VaultView, Error>(vault),
        file == session.file(vault, file.subrange(21, 33)),
        session.vault(changed) is Ok ==> changed == session.file(
            session.vault(changed)->Ok_0,
            changed.subrange(21, 33),
        ),
        changed != file,
        changed.subrange(21, 33) == file.subrange(21, 33),
    ensures
        session.vault(changed) != Ok::<VaultView, Error>(vault),
{
}

/// What the key of a password does not open is refused, and so is what has no header.
pub proof fn what_does_not_open_is_refused(password: Seq<char>, file: Seq<u8>)
    ensures
        ({
            let session = password_session(password, salt_of(file));
            &&& !has_header(file) ==> session.vault(file) == Err::<VaultView, Error>(
                Error::CorruptVault,
            )
            &&& has_header(file) && aead_opened(
                session.key,
                file.subrange(21, 33),
                file.subrange(0, 33),
                file.subrange(33, file.len() as int),
            ) is None ==> session.vault(file) == Err::<VaultView, Error>(Error::WrongPassword)
        }),
{
}

/// A vault is written only over what it was read from: a file that was changed, removed or created
/// in the meantime is never replaced.
pub proof fn only_the_own_file_is_replaced(source: Option<Seq<u8>>, found: Found)
    ensures
        write_refused(source, found) is None <==> match found {
            Found::File(bytes) => source == Some(bytes@),
            Found::Absent(_) => source is None,
            Found::Failed(_) => false,
        },
{
}

/// A sealed file is `SOLX`, the version, the salt of its session, the nonce, and the sealed bytes of
/// the vault, which are sealed together with all that comes before them.
pub proof fn a_file_is_a_header_and_a_sealed_vault(
    session: SessionView,
    vault: VaultView,
    nonce: Seq<u8>,
)
    requires
        session.salt.len() == 16,
        nonce.len() == 12,
    ensures
        ({
            let file = session.file(vault, nonce);
            let header = file.take(33);
            &&& file[0] == 0x53 && file[1] == 0x4f && file[2] == 0x4c && file[3] == 0x58
            &&& file[4] == 2
            &&& file.subrange(5, 21) == session.salt
            &&& file.subrange(21, 33) == nonce
            &&& file.skip(33) == aead_sealed(session.key, nonce, header, vault_bytes(vault))
            &&& salt_of(file) == session.salt
        }),
{
    let file = session.file(vault, nonce);
    let header = header_bytes(VERSION, session.salt, nonce);
    assert(file.take(33) =~= header);
    assert(file.subrange(5, 21) =~= session.salt);
    assert(file.subrange(21, 33) =~= nonce);
    assert(file.skip(33) =~= aead_sealed(session.key, nonce, header, vault_bytes(vault)));
}

/// The key of a session is made of the whole password and the salt, at the cost that is set.
pub proof fn keys_are_made_of_the_password(password: Seq<char>, salt: Seq<u8>)
    ensures
        password_session(password, salt).key == scrypt_key(encode_utf8(password), salt, 15, 8, 1),
        password_session(password, salt).salt == salt,
{
}

/// A file is read only where it begins as a vault file does and has the salt of the session, and it
/// is opened with the whole header.
pub proof fn files_are_opened_with_their_header(session: SessionView, file: Seq<u8>)
    ensures
        session.vault(file) is Ok ==> {
            &&& file.len() >= 49
            &&& file[0] == 0x53 && file[1] == 0x4f && file[2] == 0x4c && file[3] == 0x58
            &&& file[4] == 1 || file[4] == 2
            &&& file.subrange(5, 21) == session.salt
            &&& aead_opened(
                session.key,
                file.subrange(21, 33),
                file.take(33),
                file.skip(33),
            ) is Some
            &&& session.vault(file) == vault_of_bytes(
                aead_opened(
                    session.key,
                    file.subrange(21, 33),
                    file.take(33),
                    file.skip(33),
                )->Some_0,
                file[4],
            )
        },
{
    if session.vault(file) is Ok {
        assert(file.subrange(0, 33) =~= file.take(33));
        assert(file.subrange(33, file.len() as int) =~= file.skip(33));
        let start = file.subrange(0, 4);
        assert(start[0] == file[0] && start[1] == file[1] && start[2] == file[2] && start[3]
            == file[3]);
        assert(magic()[0] == 0x53 && magic()[1] == 0x4f && magic()[2] == 0x4c && magic()[3]
            == 0x58);
    }
}

} // verus!
