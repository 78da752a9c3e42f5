//! The plain bytes of a vault.
//!
//! One byte counts the masters; a master is the length of its entropy, the entropy and, from
//! version 2 on, the next index. Two bytes count the accounts; an account is the length of its
//! name, the name, the address, a kind byte, and either a master and an index or a keypair. Two
//! bytes count the recipients, which are addresses. Numbers are little-endian.
use vstd::prelude::*;
use vstd::string::*;
use vstd::utf8::*;

use crate::error::Error;
use crate::instruction::{lemma_number_in_le32, number_in};
use crate::mnemonic::{entropy_length, Mnemonic, INDEX_LIMIT};
use crate::name::{is_name, name_bytes, valid_name};
use crate::pubkey::Pubkey;
use crate::secret::{SecretArray, SecretBytes};
use crate::signer::{valid_keypair, Keypair};
use crate::text::{same, utf8_fault, utf8_text};
use crate::vault::{account_views, account_wf, distinct_names, lemma_position, lemma_position_is,
    master_views, master_wf, position, recipient_views, Account, AccountKind, AccountView, KindView,
    Master, MasterView, Vault, VaultView, MAX_ACCOUNTS, MAX_MASTERS, MAX_RECIPIENTS};

verus! {

/// The version that is written.
pub const VERSION: u8 = 2;

// ---------------------------------------------------------------------------------------------
// Numbers
// ---------------------------------------------------------------------------------------------
/// A number below 65536 in two bytes.
pub open spec fn le16(n: nat) -> Seq<u8> {
    seq![(n % 256) as u8, (n / 256 % 256) as u8]
}

/// A number in four bytes.
pub open spec fn le32(n: u32) -> Seq<u8> {
    seq![
        (n % 256) as u8,
        (n / 256 % 256) as u8,
        (n / 65536 % 256) as u8,
        (n / 16777216 % 256) as u8,
    ]
}

/// The number in two bytes.
pub open spec fn from_le16(b: Seq<u8>) -> nat {
    (b[0] + 256 * b[1]) as nat
}

/// The number in four bytes.
pub open spec fn from_le32(b: Seq<u8>) -> u32 {
    (b[0] + 256 * b[1] + 65536 * b[2] + 16777216 * b[3]) as u32
}

proof fn lemma_le16(n: nat)
    requires
        n < 65536,
    ensures
        from_le16(le16(n)) == n,
{
}

proof fn lemma_le16_back(b: Seq<u8>)
    requires
        b.len() == 2,
    ensures
        le16(from_le16(b)) == b,
{
    assert(le16(from_le16(b)) =~= b);
}

proof fn lemma_le32(n: u32)
    ensures
        from_le32(le32(n)) == n,
{
}

proof fn lemma_le32_back(b: Seq<u8>)
    requires
        b.len() == 4,
    ensures
        le32(from_le32(b)) == b,
{
    let n = from_le32(b);
    let high = b[2] + 256 * b[3];
    let middle = b[1] + 256 * high;
    assert(n == b[0] + 256 * middle);
    assert(n / 256 == middle && n % 256 == b[0]);
    assert(middle / 256 == high && middle % 256 == b[1]);
    assert(n / 65536 == high);
    assert(high / 256 == b[3] && high % 256 == b[2]);
    assert(n / 16777216 == b[3]);
    assert(le32(n) =~= b);
}

fn push_le16(out: &mut SecretBytes, n: usize)
    requires
        n < 65536,
    ensures
        final(out)@ == old(out)@ + le16(n as nat),
{
    out.push((n % 256) as u8);
    out.push((n / 256 % 256) as u8);
    assert(out@ =~= old(out)@ + le16(n as nat));
}

fn push_le32(out: &mut SecretBytes, n: u32)
    ensures
        final(out)@ == old(out)@ + le32(n),
{
    out.push((n % 256) as u8);
    out.push((n / 256 % 256) as u8);
    out.push((n / 65536 % 256) as u8);
    out.push((n / 16777216 % 256) as u8);
    assert(out@ =~= old(out)@ + le32(n));
}

fn read_le32(b: &[u8]) -> (n: u32)
    requires
        b@.len() == 4,
    ensures
        n == from_le32(b@),
{
    b[0] as u32 + 256 * (b[1] as u32) + 65536 * (b[2] as u32) + 16777216 * (b[3] as u32)
}

fn array_32(bytes: &[u8]) -> (array: [u8; 32])
    requires
        bytes@.len() == 32,
    ensures
        array@ == bytes@,
{
    let mut array: [u8; 32] = [0;32];
    let mut i: usize = 0;
    while i < 32
        invariant
            i <= 32,
            bytes@.len() == 32,
            array@.len() == 32,
            forall|k: int| 0 <= k < i ==> array@[k] == bytes@[k],
        decreases 32 - i,
    {
        array[i] = bytes[i];
        i += 1;
    }
    assert(array@ =~= bytes@);
    array
}

fn array_64(bytes: &[u8]) -> (array: SecretArray<64>)
    requires
        bytes@.len() == 64,
    ensures
        array@ == bytes@,
{
    let mut array: [u8; 64] = [0;64];
    let mut i: usize = 0;
    while i < 64
        invariant
            i <= 64,
            bytes@.len() == 64,
            array@.len() == 64,
            forall|k: int| 0 <= k < i ==> array@[k] == bytes@[k],
        decreases 64 - i,
    {
        array[i] = bytes[i];
        i += 1;
    }
    assert(array@ =~= bytes@);
    SecretArray::new(array)
}

// ---------------------------------------------------------------------------------------------
// Writing
// ---------------------------------------------------------------------------------------------
/// The bytes of a master.
pub open spec fn master_bytes(master: MasterView) -> Seq<u8> {
    seq![master.entropy.len() as u8] + master.entropy + le32(master.next_index)
}

/// The bytes of some masters.
pub open spec fn masters_bytes(masters: Seq<MasterView>) -> Seq<u8>
    decreases masters.len(),
{
    if masters.len() == 0 {
        Seq::empty()
    } else {
        masters_bytes(masters.drop_last()) + master_bytes(masters.last())
    }
}

/// The bytes that tell where the key of an account comes from.
pub open spec fn kind_bytes(kind: KindView) -> Seq<u8> {
    match kind {
        KindView::Derived { master, index } => seq![0u8, master] + le32(index),
        KindView::Imported { keypair } => seq![1u8] + keypair,
    }
}

/// The bytes of an account.
pub open spec fn account_bytes(account: AccountView) -> Seq<u8> {
    seq![encode_utf8(account.name).len() as u8] + encode_utf8(account.name) + account.pubkey
        + kind_bytes(account.kind)
}

/// The bytes of some accounts.
pub open spec fn accounts_bytes(accounts: Seq<AccountView>) -> Seq<u8>
    decreases accounts.len(),
{
    if accounts.len() == 0 {
        Seq::empty()
    } else {
        accounts_bytes(accounts.drop_last()) + account_bytes(accounts.last())
    }
}

/// The bytes of some recipients.
pub open spec fn recipients_bytes(recipients: Seq<Seq<u8>>) -> Seq<u8>
    decreases recipients.len(),
{
    if recipients.len() == 0 {
        Seq::empty()
    } else {
        recipients_bytes(recipients.drop_last()) + recipients.last()
    }
}

/// The bytes of a vault.
pub open spec fn vault_bytes(vault: VaultView) -> Seq<u8> {
    seq![vault.masters.len() as u8] + masters_bytes(vault.masters) + le16(vault.accounts.len())
        + accounts_bytes(vault.accounts) + le16(vault.recipients.len()) + recipients_bytes(
        vault.recipients,
    )
}

/// A vault within the limits of its lists.
pub open spec fn within_limits(vault: VaultView) -> bool {
    vault.masters.len() <= MAX_MASTERS && vault.accounts.len() <= MAX_ACCOUNTS
        && vault.recipients.len() <= MAX_RECIPIENTS
}

/// The lengths of entropies and names fit in the byte that they are written in.
pub open spec fn lengths_fit(vault: VaultView) -> bool {
    &&& forall|i: int|
        0 <= i < vault.masters.len() ==> (#[trigger] vault.masters[i]).entropy.len() < 256
    &&& forall|i: int|
        0 <= i < vault.accounts.len() ==> encode_utf8((#[trigger] vault.accounts[i]).name).len()
            < 256
}

/// A well-formed vault can be written.
pub proof fn well_formed_vaults_can_be_written(vault: VaultView)
    requires
        vault.wf(),
    ensures
        within_limits(vault),
        lengths_fit(vault),
{
    assert forall|i: int| 0 <= i < vault.masters.len() implies (
    #[trigger] vault.masters[i]).entropy.len() < 256 by {
        assert(master_wf(vault.masters[i]));
    }
    assert forall|i: int| 0 <= i < vault.accounts.len() implies encode_utf8(
        (#[trigger] vault.accounts[i]).name,
    ).len() < 256 by {
        assert(account_wf(vault.accounts[i], vault.masters));
        name_bytes(vault.accounts[i].name);
    }
}

proof fn lemma_recipients_len(recipients: Seq<Seq<u8>>)
    requires
        forall|k: int| 0 <= k < recipients.len() ==> (#[trigger] recipients[k]).len() == 32,
    ensures
        recipients_bytes(recipients).len() == 32 * recipients.len(),
    decreases recipients.len(),
{
    if recipients.len() > 0 {
        lemma_recipients_len(recipients.drop_last());
    }
}

proof fn lemma_masters_len(masters: Seq<MasterView>)
    requires
        forall|k: int| 0 <= k < masters.len() ==> master_wf(#[trigger] masters[k]),
    ensures
        masters_bytes(masters).len() <= 37 * masters.len(),
    decreases masters.len(),
{
    if masters.len() > 0 {
        lemma_masters_len(masters.drop_last());
        assert(master_wf(masters[masters.len() - 1]));
    }
}

proof fn lemma_accounts_len(accounts: Seq<AccountView>, masters: Seq<MasterView>)
    requires
        forall|k: int| 0 <= k < accounts.len() ==> account_wf(#[trigger] accounts[k], masters),
    ensures
        accounts_bytes(accounts).len() <= 130 * accounts.len(),
    decreases accounts.len(),
{
    if accounts.len() > 0 {
        lemma_accounts_len(accounts.drop_last(), masters);
        let last = accounts.last();
        assert(account_wf(accounts[accounts.len() - 1], masters));
        name_bytes(last.name);
    }
}

/// The bytes of a well-formed vault are few.
pub proof fn lemma_vault_len(vault: VaultView)
    requires
        vault.wf(),
    ensures
        vault_bytes(vault).len() <= 64 * 1024,
{
    lemma_masters_len(vault.masters);
    lemma_accounts_len(vault.accounts, vault.masters);
    lemma_recipients_len(vault.recipients);
}

impl Vault {
    /// How many plain bytes there are, so that their buffer never grows.
    fn plain_size(&self) -> (size: usize)
        requires
            within_limits(self@),
            lengths_fit(self@),
        ensures
            size == vault_bytes(self@).len(),
            size <= 64 * 1024,
    {
        let ghost v = self@;
        let mut size: usize = 5;
        let mut i: usize = 0;
        while i < self.masters.len()
            invariant
                i <= self.masters@.len() <= MAX_MASTERS,
                v == self@,
                lengths_fit(v),
                size == 5 + masters_bytes(v.masters.take(i as int)).len(),
                size <= 5 + 260 * i,
            decreases self.masters@.len() - i,
        {
            proof {
                assert(v.masters[i as int] == self.masters@[i as int]@);
                assert(v.masters.take(i + 1).drop_last() =~= v.masters.take(i as int));
            }
            size = size + 5 + self.masters[i].entropy.len();
            i += 1;
        }
        assert(v.masters.take(i as int) =~= v.masters);
        let ghost front = masters_bytes(v.masters).len();
        let mut i: usize = 0;
        while i < self.accounts.len()
            invariant
                i <= self.accounts@.len() <= MAX_ACCOUNTS,
                v == self@,
                lengths_fit(v),
                size == 5 + front + accounts_bytes(v.accounts.take(i as int)).len(),
                size <= 5 + 260 * MAX_MASTERS + 353 * i,
            decreases self.accounts@.len() - i,
        {
            let account = &self.accounts[i];
            proof {
                assert(v.accounts[i as int] == account@);
                assert(v.accounts.take(i + 1).drop_last() =~= v.accounts.take(i as int));
            }
            let kind: usize = match &account.kind {
                AccountKind::Derived { .. } => 5,
                AccountKind::Imported { keypair } => {
                    proof {
                        keypair.lemma_len();
                    }
                    64
                },
            };
            assert(kind_bytes(account@.kind).len() == 1 + kind);
            size = size + 34 + account.name.as_str().as_bytes().len() + kind;
            i += 1;
        }
        assert(v.accounts.take(i as int) =~= v.accounts);
        proof {
            assert forall|k: int| 0 <= k < v.recipients.len() implies (
            #[trigger] v.recipients[k]).len() == 32 by {
                assert(v.recipients[k] == self.recipients@[k]@);
            }
            lemma_recipients_len(v.recipients);
        }
        size + 32 * self.recipients.len()
    }

    /// Writes the vault as plain bytes. The buffer has room for an authentication tag: a buffer
    /// that grows can leave copies behind that are never wiped.
    pub fn encode(&self) -> (bytes: Result<SecretBytes, Error>)
        requires
            lengths_fit(self@),
        ensures
            !within_limits(self@) ==> bytes == Err::<SecretBytes, Error>(Error::VaultLimits),
            within_limits(self@) ==> (bytes matches Ok(b) && b@ == vault_bytes(self@)),
            bytes matches Ok(b) ==> b@.len() <= 64 * 1024,
    {
        if self.masters.len() > MAX_MASTERS || self.accounts.len() > MAX_ACCOUNTS
            || self.recipients.len() > MAX_RECIPIENTS {
            return Err(Error::VaultLimits);
        }
        let mut out = SecretBytes::new(Vec::with_capacity(self.plain_size() + 16));
        let ghost v = self@;
        out.push(self.masters.len() as u8);
        let ghost head = seq![v.masters.len() as u8];
        assert(out@ =~= head + masters_bytes(v.masters.take(0)));
        let mut i: usize = 0;
        while i < self.masters.len()
            invariant
                i <= self.masters@.len(),
                v == self@,
                lengths_fit(v),
                out@ == head + masters_bytes(v.masters.take(i as int)),
                out@.len() <= 1 + 260 * i,
            decreases self.masters@.len() - i,
        {
            let master = &self.masters[i];
            proof {
                assert(v.masters[i as int] == master@);
                assert(v.masters.take(i + 1).drop_last() =~= v.masters.take(i as int));
            }
            let ghost before = out@;
            out.push(master.entropy.len() as u8);
            out.extend_from_slice(master.entropy.as_slice());
            push_le32(&mut out, master.next_index);
            assert(out@ =~= before + master_bytes(master@));
            assert(out@ =~= head + masters_bytes(v.masters.take(i + 1)));
            i += 1;
        }
        assert(v.masters.take(i as int) =~= v.masters);
        push_le16(&mut out, self.accounts.len());
        let ghost head = out@;
        assert(out@ =~= head + accounts_bytes(v.accounts.take(0)));
        let mut i: usize = 0;
        while i < self.accounts.len()
            invariant
                i <= self.accounts@.len(),
                v == self@,
                lengths_fit(v),
                out@ == head + accounts_bytes(v.accounts.take(i as int)),
                out@.len() <= 3 + 260 * MAX_MASTERS + 353 * i,
            decreases self.accounts@.len() - i,
        {
            let account = &self.accounts[i];
            proof {
                assert(v.accounts[i as int] == account@);
                assert(v.accounts.take(i + 1).drop_last() =~= v.accounts.take(i as int));
            }
            let ghost before = out@;
            let name = account.name.as_str().as_bytes();
            out.push(name.len() as u8);
            out.extend_from_slice(name);
            out.extend_from_slice(account.pubkey.as_array());
            let ghost middle = out@;
            match &account.kind {
                AccountKind::Derived { master, index } => {
                    out.push(0);
                    out.push(*master);
                    push_le32(&mut out, *index);
                },
                AccountKind::Imported { keypair } => {
                    out.push(1);
                    out.extend_from_slice(keypair.as_array());
                },
            }
            assert(out@ =~= middle + kind_bytes(account@.kind));
            assert(out@ =~= before + account_bytes(account@));
            assert(out@ =~= head + accounts_bytes(v.accounts.take(i + 1)));
            i += 1;
        }
        assert(v.accounts.take(i as int) =~= v.accounts);
        push_le16(&mut out, self.recipients.len());
        let ghost head = out@;
        assert(out@ =~= head + recipients_bytes(v.recipients.take(0)));
        let mut i: usize = 0;
        while i < self.recipients.len()
            invariant
                i <= self.recipients@.len(),
                v == self@,
                out@ == head + recipients_bytes(v.recipients.take(i as int)),
                out@.len() <= 5 + 260 * MAX_MASTERS + 353 * MAX_ACCOUNTS + 32 * i,
            decreases self.recipients@.len() - i,
        {
            proof {
                assert(v.recipients[i as int] == self.recipients@[i as int]@);
                assert(v.recipients.take(i + 1).drop_last() =~= v.recipients.take(i as int));
            }
            let ghost before = out@;
            out.extend_from_slice(&self.recipients[i]);
            assert(out@ =~= head + recipients_bytes(v.recipients.take(i + 1)));
            i += 1;
        }
        assert(v.recipients.take(i as int) =~= v.recipients);
        assert(out@ =~= vault_bytes(v));
        Ok(out)
    }
}

// ---------------------------------------------------------------------------------------------
// Reading
// ---------------------------------------------------------------------------------------------
/// Some bytes from a position on, where the data holds them.
pub open spec fn bytes_at(data: Seq<u8>, pos: int, n: int) -> Result<Seq<u8>, Error> {
    if pos + n > data.len() {
        Err(Error::Truncated)
    } else {
        Ok(data.subrange(pos, pos + n))
    }
}

/// The master at a position, and the position behind it.
pub open spec fn master_at(data: Seq<u8>, pos: int, version: u8) -> Result<
    (MasterView, int),
    Error,
> {
    match bytes_at(data, pos, 1) {
        Err(error) => Err(error),
        Ok(length) => {
            let n = length[0] as int;
            if !entropy_length(n as nat) {
                Err(Error::InvalidEntropySize)
            } else {
                match bytes_at(data, pos + 1, n) {
                    Err(error) => Err(error),
                    Ok(entropy) => if version == 1 {
                        Ok((MasterView { entropy, next_index: 1 }, pos + 1 + n))
                    } else {
                        match bytes_at(data, pos + 1 + n, 4) {
                            Err(error) => Err(error),
                            Ok(next) => if from_le32(next) == 0 || from_le32(next) > INDEX_LIMIT {
                                Err(Error::InvalidNextIndex)
                            } else {
                                Ok(
                                    (
                                        MasterView { entropy, next_index: from_le32(next) },
                                        pos + 5 + n,
                                    ),
                                )
                            },
                        }
                    },
                }
            }
        },
    }
}

/// A number of masters from a position on, and the position behind them.
pub open spec fn masters_at(data: Seq<u8>, pos: int, version: u8, count: nat) -> Result<
    (Seq<MasterView>, int),
    Error,
>
    decreases count,
{
    if count == 0 {
        Ok((Seq::empty(), pos))
    } else {
        match masters_at(data, pos, version, (count - 1) as nat) {
            Err(error) => Err(error),
            Ok((front, next)) => match master_at(data, next, version) {
                Err(error) => Err(error),
                Ok((master, end)) => Ok((front.push(master), end)),
            },
        }
    }
}

/// A reference to an account index under a master. It must be below the counter of the master;
/// version 1 has no counters, so there it moves the counter.
pub open spec fn reference(
    masters: Seq<MasterView>,
    version: u8,
    master: u8,
    index: u32,
) -> Result<Seq<MasterView>, Error> {
    if master >= masters.len() || index >= INDEX_LIMIT {
        Err(Error::InvalidMasterReference)
    } else {
        let entry = masters[master as int];
        if version == 1 {
            let next_index = if entry.next_index > index {
                entry.next_index
            } else {
                (index + 1) as u32
            };
            Ok(masters.update(master as int, MasterView { next_index, ..entry }))
        } else if index >= entry.next_index {
            Err(Error::IndexReused)
        } else {
            Ok(masters)
        }
    }
}

/// Where the key of an account comes from, by the bytes at a position: the kind, the masters after
/// it, and the position behind.
pub open spec fn kind_at(
    data: Seq<u8>,
    pos: int,
    version: u8,
    masters: Seq<MasterView>,
    pubkey: Seq<u8>,
) -> Result<(KindView, Seq<MasterView>, int), Error> {
    match bytes_at(data, pos, 1) {
        Err(error) => Err(error),
        Ok(tag) => if tag[0] == 0 {
            match bytes_at(data, pos + 1, 1) {
                Err(error) => Err(error),
                Ok(master) => match bytes_at(data, pos + 2, 4) {
                    Err(error) => Err(error),
                    Ok(index) => match reference(masters, version, master[0], from_le32(index)) {
                        Err(error) => Err(error),
                        Ok(updated) => Ok(
                            (
                                KindView::Derived { master: master[0], index: from_le32(index) },
                                updated,
                                pos + 6,
                            ),
                        ),
                    },
                },
            }
        } else if tag[0] == 1 {
            match bytes_at(data, pos + 1, 64) {
                Err(error) => Err(error),
                Ok(keypair) => if !valid_keypair(keypair) {
                    Err(Error::KeypairMismatch)
                } else if keypair.subrange(32, 64) != pubkey {
                    Err(Error::InvalidImportedAccount)
                } else {
                    Ok((KindView::Imported { keypair }, masters, pos + 65))
                },
            }
        } else {
            Err(Error::InvalidAccountKind)
        },
    }
}

/// The account at a position, after some others: the account, the masters after it, and the
/// position behind.
pub open spec fn account_at(
    data: Seq<u8>,
    pos: int,
    version: u8,
    masters: Seq<MasterView>,
    others: Seq<AccountView>,
) -> Result<(AccountView, Seq<MasterView>, int), Error> {
    match bytes_at(data, pos, 1) {
        Err(error) => Err(error),
        Ok(length) => {
            let n = length[0] as int;
            match bytes_at(data, pos + 1, n) {
                Err(error) => Err(error),
                Ok(bytes) => if !valid_utf8(bytes) {
                    Err(Error::NotUtf8(utf8_fault(bytes).0, utf8_fault(bytes).1))
                } else {
                    let name = decode_utf8(bytes);
                    if !is_name(name) || position(others, name) is Some {
                        Err(Error::InvalidAccountName)
                    } else {
                        match bytes_at(data, pos + 1 + n, 32) {
                            Err(error) => Err(error),
                            Ok(pubkey) => match kind_at(
                                data,
                                pos + 33 + n,
                                version,
                                masters,
                                pubkey,
                            ) {
                                Err(error) => Err(error),
                                Ok((kind, updated, end)) => Ok(
                                    (AccountView { name, pubkey, kind }, updated, end),
                                ),
                            },
                        }
                    }
                },
            }
        },
    }
}

/// A number of accounts from a position on: the accounts, the masters after them, and the position
/// behind.
pub open spec fn accounts_at(
    data: Seq<u8>,
    pos: int,
    version: u8,
    masters: Seq<MasterView>,
    count: nat,
) -> Result<(Seq<AccountView>, Seq<MasterView>, int), Error>
    decreases count,
{
    if count == 0 {
        Ok((Seq::empty(), masters, pos))
    } else {
        match accounts_at(data, pos, version, masters, (count - 1) as nat) {
            Err(error) => Err(error),
            Ok((front, updated, next)) => match account_at(data, next, version, updated, front) {
                Err(error) => Err(error),
                Ok((account, updated, end)) => Ok((front.push(account), updated, end)),
            },
        }
    }
}

/// A number of recipients from a position on, and the position behind them.
pub open spec fn recipients_at(data: Seq<u8>, pos: int, count: nat) -> Result<
    (Seq<Seq<u8>>, int),
    Error,
>
    decreases count,
{
    if count == 0 {
        Ok((Seq::empty(), pos))
    } else {
        match recipients_at(data, pos, (count - 1) as nat) {
            Err(error) => Err(error),
            Ok((front, next)) => match bytes_at(data, next, 32) {
                Err(error) => Err(error),
                Ok(recipient) => Ok((front.push(recipient), next + 32)),
            },
        }
    }
}

/// What follows the accounts: the recipients up to the end of the data.
pub open spec fn recipients_to_end(data: Seq<u8>, pos: int) -> Result<Seq<Seq<u8>>, Error> {
    match bytes_at(data, pos, 2) {
        Err(error) => Err(error),
        Ok(count) => if from_le16(count) > MAX_RECIPIENTS {
            Err(Error::TooManyRecipients)
        } else {
            match recipients_at(data, pos + 2, from_le16(count)) {
                Err(error) => Err(error),
                Ok((recipients, end)) => if end != data.len() {
                    Err(Error::TrailingData)
                } else {
                    Ok(recipients)
                },
            }
        },
    }
}

/// What follows the masters: the accounts and the recipients.
pub open spec fn accounts_to_end(
    data: Seq<u8>,
    pos: int,
    version: u8,
    masters: Seq<MasterView>,
) -> Result<VaultView, Error> {
    match bytes_at(data, pos, 2) {
        Err(error) => Err(error),
        Ok(count) => if from_le16(count) > MAX_ACCOUNTS {
            Err(Error::TooManyAccounts)
        } else {
            match accounts_at(data, pos + 2, version, masters, from_le16(count)) {
                Err(error) => Err(error),
                Ok((accounts, updated, next)) => match recipients_to_end(data, next) {
                    Err(error) => Err(error),
                    Ok(recipients) => Ok(VaultView { masters: updated, accounts, recipients }),
                },
            }
        },
    }
}

/// The vault that some plain bytes hold, or what is wrong with them.
pub open spec fn vault_of_bytes(data: Seq<u8>, version: u8) -> Result<VaultView, Error> {
    if version != 1 && version != VERSION {
        Err(Error::UnsupportedVersion)
    } else {
        match bytes_at(data, 0, 1) {
            Err(error) => Err(error),
            Ok(count) => if count[0] > MAX_MASTERS {
                Err(Error::TooManyMasters)
            } else {
                match masters_at(data, 1, version, count[0] as nat) {
                    Err(error) => Err(error),
                    Ok((masters, next)) => accounts_to_end(data, next, version, masters),
                }
            },
        }
    }
}

/// Where some masters cannot be read, more of them cannot either.
proof fn lemma_masters_err(data: Seq<u8>, pos: int, version: u8, few: nat, many: nat)
    requires
        few <= many,
        masters_at(data, pos, version, few) is Err,
    ensures
        masters_at(data, pos, version, many) == masters_at(data, pos, version, few),
    decreases many,
{
    if few < many {
        lemma_masters_err(data, pos, version, few, (many - 1) as nat);
    }
}

proof fn lemma_accounts_err(
    data: Seq<u8>,
    pos: int,
    version: u8,
    masters: Seq<MasterView>,
    few: nat,
    many: nat,
)
    requires
        few <= many,
        accounts_at(data, pos, version, masters, few) is Err,
    ensures
        accounts_at(data, pos, version, masters, many) == accounts_at(
            data,
            pos,
            version,
            masters,
            few,
        ),
    decreases many,
{
    if few < many {
        lemma_accounts_err(data, pos, version, masters, few, (many - 1) as nat);
    }
}

proof fn lemma_recipients_err(data: Seq<u8>, pos: int, few: nat, many: nat)
    requires
        few <= many,
        recipients_at(data, pos, few) is Err,
    ensures
        recipients_at(data, pos, many) == recipients_at(data, pos, few),
    decreases many,
{
    if few < many {
        lemma_recipients_err(data, pos, few, (many - 1) as nat);
    }
}

/// Some bytes, and how many of them were read.
struct Reader<'a> {
    data: &'a [u8],
    pos: usize,
}

impl<'a> Reader<'a> {
    /// No more bytes were read than there are.
    spec fn wf(&self) -> bool {
        self.pos <= self.data@.len()
    }

    /// Reads some bytes. Where there are too few, none is read.
    fn take(&mut self, len: usize) -> (bytes: Result<&'a [u8], Error>)
        requires
            old(self).wf(),
        ensures
            final(self).wf(),
            final(self).data == old(self).data,
            match bytes_at(old(self).data@, old(self).pos as int, len as int) {
                Ok(b) => bytes matches Ok(r) && r@ == b && final(self).pos == old(self).pos + len,
                Err(error) => bytes == Err::<&'a [u8], Error>(error) && final(self).pos == old(
                    self,
                ).pos,
            },
    {
        if len > self.data.len() - self.pos {
            return Err(Error::Truncated);
        }
        let end: usize = self.pos + len;
        let data = self.data;
        let bytes = &data[self.pos..end];
        self.pos = end;
        Ok(bytes)
    }

    /// Reads a byte.
    fn u8(&mut self) -> (byte: Result<u8, Error>)
        requires
            old(self).wf(),
        ensures
            final(self).wf(),
            final(self).data == old(self).data,
            match bytes_at(old(self).data@, old(self).pos as int, 1) {
                Ok(b) => byte == Ok::<u8, Error>(b[0]) && final(self).pos == old(self).pos + 1,
                Err(error) => byte == Err::<u8, Error>(error) && final(self).pos == old(self).pos,
            },
    {
        match self.take(1) {
            Ok(bytes) => Ok(bytes[0]),
            Err(error) => Err(error),
        }
    }

    /// Reads a number of two bytes.
    fn u16(&mut self) -> (n: Result<usize, Error>)
        requires
            old(self).wf(),
        ensures
            final(self).wf(),
            final(self).data == old(self).data,
            match bytes_at(old(self).data@, old(self).pos as int, 2) {
                Ok(b) => n matches Ok(v) && v == from_le16(b) && final(self).pos == old(self).pos
                    + 2,
                Err(error) => n == Err::<usize, Error>(error) && final(self).pos == old(self).pos,
            },
    {
        match self.take(2) {
            Ok(bytes) => Ok(bytes[0] as usize + 256 * (bytes[1] as usize)),
            Err(error) => Err(error),
        }
    }

    /// Reads a master.
    fn master(&mut self, version: u8) -> (master: Result<Master, Error>)
        requires
            old(self).wf(),
        ensures
            final(self).wf(),
            final(self).data == old(self).data,
            match master_at(old(self).data@, old(self).pos as int, version) {
                Ok((m, end)) => master matches Ok(r) && r@ == m && final(self).pos == end,
                Err(error) => master == Err::<Master, Error>(error),
            },
    {
        let len: usize = match self.u8() {
            Ok(len) => len as usize,
            Err(error) => return Err(error),
        };
        if !(len == 16 || len == 20 || len == 24 || len == 28 || len == 32) {
            return Err(Error::InvalidEntropySize);
        }
        let entropy = match self.take(len) {
            Ok(bytes) => SecretBytes::copy_of(bytes),
            Err(error) => return Err(error),
        };
        if let Err(error) = Mnemonic::from_entropy(entropy.as_slice()) {
            return Err(error);
        }
        if version == 1 {
            return Ok(Master { entropy, next_index: 1 });
        }
        let next_index: u32 = match self.take(4) {
            Ok(bytes) => read_le32(bytes),
            Err(error) => return Err(error),
        };
        if next_index == 0 || next_index > INDEX_LIMIT {
            return Err(Error::InvalidNextIndex);
        }
        Ok(Master { entropy, next_index })
    }

    /// Reads where the key of an account comes from.
    fn kind(&mut self, version: u8, masters: &mut Vec<Master>, pubkey: &Pubkey) -> (kind: Result<
        AccountKind,
        Error,
    >)
        requires
            old(self).wf(),
        ensures
            final(self).wf(),
            final(self).data == old(self).data,
            match kind_at(
                old(self).data@,
                old(self).pos as int,
                version,
                master_views(old(masters)@),
                pubkey@,
            ) {
                Ok((k, updated, end)) => kind matches Ok(r) && r@ == k && master_views(
                    final(masters)@,
                ) == updated && final(self).pos == end,
                Err(error) => kind == Err::<AccountKind, Error>(error),
            },
    {
        let tag: u8 = match self.u8() {
            Ok(tag) => tag,
            Err(error) => return Err(error),
        };
        if tag == 0 {
            let master: u8 = match self.u8() {
                Ok(master) => master,
                Err(error) => return Err(error),
            };
            let index: u32 = match self.take(4) {
                Ok(bytes) => read_le32(bytes),
                Err(error) => return Err(error),
            };
            if master as usize >= masters.len() || index >= INDEX_LIMIT {
                return Err(Error::InvalidMasterReference);
            }
            assert(master_views(masters@)[master as int] == masters@[master as int]@);
            let next: u32 = masters[master as usize].next_index;
            if version == 1 {
                if next <= index {
                    masters[master as usize].next_index = index + 1;
                }
                assert(master_views(masters@) =~= reference(
                    master_views(old(masters)@),
                    version,
                    master,
                    index,
                )->Ok_0);
            } else if index >= next {
                return Err(Error::IndexReused);
            }
            Ok(AccountKind::Derived { master, index })
        } else if tag == 1 {
            let keypair = match self.take(64) {
                Ok(bytes) => array_64(bytes),
                Err(error) => return Err(error),
            };
            match Keypair::try_from(keypair.as_array()) {
                Ok(read) => {
                    if !read.pubkey().same(pubkey) {
                        return Err(Error::InvalidImportedAccount);
                    }
                },
                Err(error) => return Err(error),
            }
            Ok(AccountKind::Imported { keypair })
        } else {
            Err(Error::InvalidAccountKind)
        }
    }

    /// Reads an account that comes after some others.
    fn account(&mut self, version: u8, masters: &mut Vec<Master>, others: &Vec<Account>) -> (account:
        Result<Account, Error>)
        requires
            old(self).wf(),
        ensures
            final(self).wf(),
            final(self).data == old(self).data,
            match account_at(
                old(self).data@,
                old(self).pos as int,
                version,
                master_views(old(masters)@),
                account_views(others@),
            ) {
                Ok((a, updated, end)) => account matches Ok(r) && r@ == a && master_views(
                    final(masters)@,
                ) == updated && final(self).pos == end,
                Err(error) => account == Err::<Account, Error>(error),
            },
    {
        let len: usize = match self.u8() {
            Ok(len) => len as usize,
            Err(error) => return Err(error),
        };
        let bytes = match self.take(len) {
            Ok(bytes) => bytes,
            Err(error) => return Err(error),
        };
        let name = match utf8_text(bytes) {
            Ok(name) => name,
            Err(fault) => return Err(Error::NotUtf8(fault.0, fault.1)),
        };
        proof {
            encode_utf8_decode_utf8(name@);
        }
        if !valid_name(name) || has_name(others, name) {
            return Err(Error::InvalidAccountName);
        }
        let pubkey = match self.take(32) {
            Ok(bytes) => Pubkey::new_from_array(array_32(bytes)),
            Err(error) => return Err(error),
        };
        match self.kind(version, masters, &pubkey) {
            Ok(kind) => Ok(Account { name: name.to_owned(), pubkey, kind }),
            Err(error) => Err(error),
        }
    }
}

/// Tells whether one of some accounts has a name.
fn has_name(accounts: &Vec<Account>, name: &str) -> (yes: bool)
    ensures
        yes == position(account_views(accounts@), name@) is Some,
{
    let ghost views = account_views(accounts@);
    let mut i: usize = 0;
    while i < accounts.len()
        invariant
            i <= accounts@.len(),
            views == account_views(accounts@),
            forall|k: int| 0 <= k < i ==> (#[trigger] views[k]).name != name@,
        decreases accounts@.len() - i,
    {
        assert(views[i as int] == accounts@[i as int]@);
        if same(accounts[i].name.as_str(), name) {
            proof {
                lemma_position_is(views, name@, i as int);
            }
            return true;
        }
        i += 1;
    }
    proof {
        lemma_position(views, name@);
    }
    false
}

impl Vault {
    /// Reads a vault from plain bytes.
    pub fn decode(data: &[u8], version: u8) -> (vault: Result<Vault, Error>)
        ensures
            match vault_of_bytes(data@, version) {
                Ok(v) => vault matches Ok(r) && r@ == v && r.source_bytes is None,
                Err(error) => vault == Err::<Vault, Error>(error),
            },
    {
        if version != 1 && version != VERSION {
            return Err(Error::UnsupportedVersion);
        }
        let mut reader = Reader { data, pos: 0 };
        let master_count: usize = match reader.u8() {
            Ok(count) => count as usize,
            Err(error) => return Err(error),
        };
        if master_count > MAX_MASTERS {
            return Err(Error::TooManyMasters);
        }
        let mut masters: Vec<Master> = Vec::with_capacity(master_count);
        assert(master_views(masters@) =~= Seq::empty());
        let mut i: usize = 0;
        while i < master_count
            invariant
                i <= master_count,
                reader.wf(),
                reader.data == data,
                version == 1 || version == VERSION,
                masters_at(data@, 1, version, i as nat) == Ok::<(Seq<MasterView>, int), Error>(
                    (master_views(masters@), reader.pos as int),
                ),
                vault_of_bytes(data@, version) == match masters_at(
                    data@,
                    1,
                    version,
                    master_count as nat,
                ) {
                    Err(error) => Err(error),
                    Ok((m, next)) => accounts_to_end(data@, next, version, m),
                },
            decreases master_count - i,
        {
            let ghost before = masters@;
            match reader.master(version) {
                Ok(master) => {
                    masters.push(master);
                    assert(master_views(masters@) =~= master_views(before).push(master@));
                },
                Err(error) => {
                    proof {
                        lemma_masters_err(data@, 1, version, (i + 1) as nat, master_count as nat);
                    }
                    return Err(error);
                },
            }
            i += 1;
        }
        let ghost start = reader.pos as int;
        let ghost read = master_views(masters@);
        let count: usize = match reader.u16() {
            Ok(count) => count,
            Err(error) => return Err(error),
        };
        if count > MAX_ACCOUNTS {
            return Err(Error::TooManyAccounts);
        }
        let mut accounts: Vec<Account> = Vec::with_capacity(count);
        assert(account_views(accounts@) =~= Seq::empty());
        let mut i: usize = 0;
        while i < count
            invariant
                i <= count,
                reader.wf(),
                reader.data == data,
                accounts_at(data@, start + 2, version, read, i as nat) == Ok::<
                    (Seq<AccountView>, Seq<MasterView>, int),
                    Error,
                >((account_views(accounts@), master_views(masters@), reader.pos as int)),
                vault_of_bytes(data@, version) == match accounts_at(
                    data@,
                    start + 2,
                    version,
                    read,
                    count as nat,
                ) {
                    Err(error) => Err(error),
                    Ok((a, updated, next)) => match recipients_to_end(data@, next) {
                        Err(error) => Err(error),
                        Ok(recipients) => Ok(
                            VaultView { masters: updated, accounts: a, recipients },
                        ),
                    },
                },
            decreases count - i,
        {
            let ghost before = accounts@;
            match reader.account(version, &mut masters, &accounts) {
                Ok(account) => {
                    accounts.push(account);
                    assert(account_views(accounts@) =~= account_views(before).push(account@));
                },
                Err(error) => {
                    proof {
                        lemma_accounts_err(
                            data@,
                            start + 2,
                            version,
                            read,
                            (i + 1) as nat,
                            count as nat,
                        );
                    }
                    return Err(error);
                },
            }
            i += 1;
        }
        let ghost start = reader.pos as int;
        let recipients_count: usize = match reader.u16() {
            Ok(count) => count,
            Err(error) => return Err(error),
        };
        if recipients_count > MAX_RECIPIENTS {
            return Err(Error::TooManyRecipients);
        }
        let mut recipients: Vec<[u8; 32]> = Vec::with_capacity(recipients_count);
        assert(recipient_views(recipients@) =~= Seq::empty());
        let ghost found_masters = master_views(masters@);
        let ghost found_accounts = account_views(accounts@);
        let mut i: usize = 0;
        while i < recipients_count
            invariant
                i <= recipients_count,
                reader.wf(),
                reader.data == data,
                recipients_at(data@, start + 2, i as nat) == Ok::<(Seq<Seq<u8>>, int), Error>(
                    (recipient_views(recipients@), reader.pos as int),
                ),
                vault_of_bytes(data@, version) == match recipients_at(
                    data@,
                    start + 2,
                    recipients_count as nat,
                ) {
                    Err(error) => Err(error),
                    Ok((r, end)) => if end != data@.len() {
                        Err(Error::TrailingData)
                    } else {
                        Ok(
                            VaultView {
                                masters: found_masters,
                                accounts: found_accounts,
                                recipients: r,
                            },
                        )
                    },
                },
            decreases recipients_count - i,
        {
            let ghost before = recipients@;
            match reader.take(32) {
                Ok(bytes) => {
                    let recipient = array_32(bytes);
                    recipients.push(recipient);
                    assert(recipient_views(recipients@) =~= recipient_views(before).push(
                        recipient@,
                    ));
                },
                Err(error) => {
                    proof {
                        lemma_recipients_err(
                            data@,
                            start + 2,
                            (i + 1) as nat,
                            recipients_count as nat,
                        );
                    }
                    return Err(error);
                },
            }
            i += 1;
        }
        if reader.pos != data.len() {
            return Err(Error::TrailingData);
        }
        Ok(Vault { masters, accounts, recipients, source_bytes: None })
    }
}

// ---------------------------------------------------------------------------------------------
// Laws
// ---------------------------------------------------------------------------------------------
/// A part of a sequence that was put together from two parts.
proof fn lemma_split(data: Seq<u8>, pos: int, a: Seq<u8>, b: Seq<u8>)
    requires
        0 <= pos,
        pos + a.len() + b.len() <= data.len(),
        data.subrange(pos, pos + a.len() + b.len()) == a + b,
    ensures
        data.subrange(pos, pos + a.len()) == a,
        data.subrange(pos + a.len(), pos + a.len() + b.len()) == b,
{
    let whole = data.subrange(pos, pos + a.len() + b.len());
    assert(data.subrange(pos, pos + a.len()) =~= whole.subrange(0, a.len() as int));
    assert((a + b).subrange(0, a.len() as int) =~= a);
    assert(data.subrange(pos + a.len(), pos + a.len() + b.len()) =~= whole.subrange(
        a.len() as int,
        (a.len() + b.len()) as int,
    ));
    assert((a + b).subrange(a.len() as int, (a.len() + b.len()) as int) =~= b);
}

/// A sequence holds some bytes from a position on.
spec fn holds(data: Seq<u8>, pos: int, bytes: Seq<u8>) -> bool {
    0 <= pos && pos + bytes.len() <= data.len() && data.subrange(pos, pos + bytes.len()) == bytes
}

proof fn lemma_read_master(data: Seq<u8>, pos: int, master: MasterView)
    requires
        master_wf(master),
        holds(data, pos, master_bytes(master)),
    ensures
        master_at(data, pos, VERSION) == Ok::<(MasterView, int), Error>(
            (master, pos + master_bytes(master).len()),
        ),
{
    let n = master.entropy.len();
    let length = seq![n as u8];
    lemma_split(data, pos, length + master.entropy, le32(master.next_index));
    lemma_split(data, pos, length, master.entropy);
    lemma_le32(master.next_index);
    assert(data.subrange(pos, pos + 1)[0] == n as u8);
}

proof fn lemma_read_masters(data: Seq<u8>, pos: int, masters: Seq<MasterView>)
    requires
        forall|i: int| 0 <= i < masters.len() ==> master_wf(#[trigger] masters[i]),
        holds(data, pos, masters_bytes(masters)),
    ensures
        masters_at(data, pos, VERSION, masters.len()) == Ok::<(Seq<MasterView>, int), Error>(
            (masters, pos + masters_bytes(masters).len()),
        ),
    decreases masters.len(),
{
    if masters.len() == 0 {
        assert(masters =~= Seq::empty());
    } else {
        let front = masters.drop_last();
        lemma_split(data, pos, masters_bytes(front), master_bytes(masters.last()));
        assert forall|i: int| 0 <= i < front.len() implies master_wf(#[trigger] front[i]) by {
            assert(front[i] == masters[i]);
        }
        lemma_read_masters(data, pos, front);
        lemma_read_master(data, pos + masters_bytes(front).len(), masters.last());
        assert(front.push(masters.last()) =~= masters);
    }
}

proof fn lemma_read_kind(
    data: Seq<u8>,
    pos: int,
    masters: Seq<MasterView>,
    account: AccountView,
)
    requires
        account_wf(account, masters),
        forall|i: int| 0 <= i < masters.len() ==> master_wf(#[trigger] masters[i]),
        holds(data, pos, kind_bytes(account.kind)),
    ensures
        kind_at(data, pos, VERSION, masters, account.pubkey) == Ok::<
            (KindView, Seq<MasterView>, int),
            Error,
        >((account.kind, masters, pos + kind_bytes(account.kind).len())),
{
    match account.kind {
        KindView::Derived { master, index } => {
            lemma_split(data, pos, seq![0u8, master], le32(index));
            assert(seq![0u8, master] =~= seq![0u8] + seq![master]);
            lemma_split(data, pos, seq![0u8], seq![master]);
            lemma_le32(index);
            assert(data.subrange(pos, pos + 1)[0] == 0u8);
            assert(data.subrange(pos + 1, pos + 2)[0] == master);
            assert(master_wf(masters[master as int]));
        },
        KindView::Imported { keypair } => {
            lemma_split(data, pos, seq![1u8], keypair);
            assert(data.subrange(pos, pos + 1)[0] == 1u8);
        },
    }
}

proof fn lemma_read_account(
    data: Seq<u8>,
    pos: int,
    masters: Seq<MasterView>,
    others: Seq<AccountView>,
    account: AccountView,
)
    requires
        account_wf(account, masters),
        forall|i: int| 0 <= i < masters.len() ==> master_wf(#[trigger] masters[i]),
        position(others, account.name) is None,
        holds(data, pos, account_bytes(account)),
    ensures
        account_at(data, pos, VERSION, masters, others) == Ok::<
            (AccountView, Seq<MasterView>, int),
            Error,
        >((account, masters, pos + account_bytes(account).len())),
{
    let name = encode_utf8(account.name);
    name_bytes(account.name);
    let length = seq![name.len() as u8];
    lemma_split(data, pos, length + name + account.pubkey, kind_bytes(account.kind));
    lemma_split(data, pos, length + name, account.pubkey);
    lemma_split(data, pos, length, name);
    assert(data.subrange(pos, pos + 1)[0] == name.len() as u8);
    lemma_read_kind(data, pos + 33 + name.len(), masters, account);
}

proof fn lemma_read_accounts(
    data: Seq<u8>,
    pos: int,
    masters: Seq<MasterView>,
    accounts: Seq<AccountView>,
)
    requires
        forall|i: int| 0 <= i < masters.len() ==> master_wf(#[trigger] masters[i]),
        forall|i: int| 0 <= i < accounts.len() ==> account_wf(#[trigger] accounts[i], masters),
        distinct_names(accounts),
        holds(data, pos, accounts_bytes(accounts)),
    ensures
        accounts_at(data, pos, VERSION, masters, accounts.len()) == Ok::<
            (Seq<AccountView>, Seq<MasterView>, int),
            Error,
        >((accounts, masters, pos + accounts_bytes(accounts).len())),
    decreases accounts.len(),
{
    if accounts.len() == 0 {
        assert(accounts =~= Seq::empty());
    } else {
        let front = accounts.drop_last();
        let last = accounts.last();
        lemma_split(data, pos, accounts_bytes(front), account_bytes(last));
        assert forall|i: int| 0 <= i < front.len() implies account_wf(
            #[trigger] front[i],
            masters,
        ) by {
            assert(front[i] == accounts[i]);
        }
        assert forall|i: int, j: int| 0 <= i < j < front.len() implies (
        #[trigger] front[i]).name != (#[trigger] front[j]).name by {
            assert(front[i] == accounts[i]);
            assert(front[j] == accounts[j]);
        }
        lemma_read_accounts(data, pos, masters, front);
        lemma_position(front, last.name);
        if let Some(i) = position(front, last.name) {
            assert(front[i] == accounts[i]);
            assert(accounts[i].name != accounts[accounts.len() - 1].name);
        }
        assert(account_wf(accounts[accounts.len() - 1], masters));
        lemma_read_account(data, pos + accounts_bytes(front).len(), masters, front, last);
        assert(front.push(last) =~= accounts);
    }
}

proof fn lemma_read_recipients(data: Seq<u8>, pos: int, recipients: Seq<Seq<u8>>)
    requires
        forall|i: int| 0 <= i < recipients.len() ==> (#[trigger] recipients[i]).len() == 32,
        holds(data, pos, recipients_bytes(recipients)),
    ensures
        recipients_at(data, pos, recipients.len()) == Ok::<(Seq<Seq<u8>>, int), Error>(
            (recipients, pos + recipients_bytes(recipients).len()),
        ),
    decreases recipients.len(),
{
    if recipients.len() == 0 {
        assert(recipients =~= Seq::empty());
    } else {
        let front = recipients.drop_last();
        assert(recipients[recipients.len() - 1].len() == 32);
        lemma_split(data, pos, recipients_bytes(front), recipients.last());
        assert forall|i: int| 0 <= i < front.len() implies (#[trigger] front[i]).len() == 32 by {
            assert(front[i] == recipients[i]);
        }
        lemma_read_recipients(data, pos, front);
        assert(front.push(recipients.last()) =~= recipients);
    }
}

/// The bytes of the recipients, with their count.
spec fn recipients_part(vault: VaultView) -> Seq<u8> {
    le16(vault.recipients.len()) + recipients_bytes(vault.recipients)
}

/// The bytes of the accounts, with their count.
spec fn accounts_part(vault: VaultView) -> Seq<u8> {
    le16(vault.accounts.len()) + accounts_bytes(vault.accounts)
}

proof fn lemma_read_recipients_to_end(data: Seq<u8>, pos: int, vault: VaultView)
    requires
        vault.wf(),
        holds(data, pos, recipients_part(vault)),
        pos + recipients_part(vault).len() == data.len(),
    ensures
        recipients_to_end(data, pos) == Ok::<Seq<Seq<u8>>, Error>(vault.recipients),
{
    lemma_split(data, pos, le16(vault.recipients.len()), recipients_bytes(vault.recipients));
    lemma_le16(vault.recipients.len());
    lemma_read_recipients(data, pos + 2, vault.recipients);
}

proof fn lemma_read_accounts_to_end(data: Seq<u8>, pos: int, vault: VaultView)
    requires
        vault.wf(),
        holds(data, pos, accounts_part(vault) + recipients_part(vault)),
        pos + accounts_part(vault).len() + recipients_part(vault).len() == data.len(),
    ensures
        accounts_to_end(data, pos, VERSION, vault.masters) == Ok::<VaultView, Error>(vault),
{
    lemma_split(data, pos, accounts_part(vault), recipients_part(vault));
    lemma_split(data, pos, le16(vault.accounts.len()), accounts_bytes(vault.accounts));
    lemma_le16(vault.accounts.len());
    lemma_read_accounts(data, pos + 2, vault.masters, vault.accounts);
    lemma_read_recipients_to_end(data, pos + accounts_part(vault).len(), vault);
}

/// Reading what was written gives the vault back.
pub proof fn vault_round_trip(vault: VaultView)
    requires
        vault.wf(),
    ensures
        vault_of_bytes(vault_bytes(vault), VERSION) == Ok::<VaultView, Error>(vault),
{
    let data = vault_bytes(vault);
    let head = seq![vault.masters.len() as u8];
    let masters = masters_bytes(vault.masters);
    let tail = accounts_part(vault) + recipients_part(vault);
    assert(data =~= head + masters + tail);
    assert(data.subrange(0, data.len() as int) =~= data);
    lemma_split(data, 0, head + masters, tail);
    lemma_split(data, 0, head, masters);
    assert(data.subrange(0, 1)[0] == vault.masters.len() as u8);
    lemma_read_masters(data, 1, vault.masters);
    lemma_read_accounts_to_end(data, 1 + masters.len() as int, vault);
}

/// What was read as a version 2 master is what is written for it.
proof fn lemma_written_master(data: Seq<u8>, pos: int, version: u8)
    requires
        0 <= pos <= data.len(),
        master_at(data, pos, version) is Ok,
    ensures
        ({
            let (master, end) = master_at(data, pos, version)->Ok_0;
            &&& master_wf(master)
            &&& pos <= end <= data.len()
            &&& version != 1 ==> holds(data, pos, master_bytes(master)) && end == pos
                + master_bytes(master).len()
        }),
{
    let (master, end) = master_at(data, pos, version)->Ok_0;
    let n = data.subrange(pos, pos + 1)[0] as int;
    assert(master.entropy == data.subrange(pos + 1, pos + 1 + n));
    if version != 1 {
        let next = data.subrange(pos + 1 + n, pos + 5 + n);
        lemma_le32_back(next);
        assert(data.subrange(pos, end) =~= master_bytes(master));
    }
}

proof fn lemma_written_masters(data: Seq<u8>, pos: int, version: u8, count: nat)
    requires
        0 <= pos <= data.len(),
        masters_at(data, pos, version, count) is Ok,
    ensures
        ({
            let (masters, end) = masters_at(data, pos, version, count)->Ok_0;
            &&& masters.len() == count
            &&& pos <= end <= data.len()
            &&& forall|i: int| 0 <= i < count ==> master_wf(#[trigger] masters[i])
            &&& version != 1 ==> holds(data, pos, masters_bytes(masters)) && end == pos
                + masters_bytes(masters).len()
        }),
    decreases count,
{
    let (masters, end) = masters_at(data, pos, version, count)->Ok_0;
    if count == 0 {
        assert(data.subrange(pos, pos) =~= Seq::empty());
    } else {
        lemma_written_masters(data, pos, version, (count - 1) as nat);
        let (front, next) = masters_at(data, pos, version, (count - 1) as nat)->Ok_0;
        lemma_written_master(data, next, version);
        assert forall|i: int| 0 <= i < count implies master_wf(#[trigger] masters[i]) by {
            if i < count - 1 {
                assert(masters[i] == front[i]);
            }
        }
        if version != 1 {
            assert(masters.drop_last() =~= front);
            assert(data.subrange(pos, end) =~= data.subrange(pos, next) + data.subrange(next, end));
        }
    }
}

/// Masters that are left as they were, or whose counters were moved up.
spec fn moved_up(before: Seq<MasterView>, after: Seq<MasterView>) -> bool {
    &&& before.len() == after.len()
    &&& forall|i: int|
        0 <= i < before.len() ==> before[i].next_index <= (#[trigger] after[i]).next_index
    &&& forall|i: int| 0 <= i < after.len() ==> master_wf(#[trigger] after[i])
}

proof fn lemma_written_account(
    data: Seq<u8>,
    pos: int,
    version: u8,
    masters: Seq<MasterView>,
    others: Seq<AccountView>,
)
    requires
        0 <= pos <= data.len(),
        forall|i: int| 0 <= i < masters.len() ==> master_wf(#[trigger] masters[i]),
        account_at(data, pos, version, masters, others) is Ok,
    ensures
        ({
            let (account, updated, end) = account_at(data, pos, version, masters, others)->Ok_0;
            &&& account_wf(account, updated)
            &&& position(others, account.name) is None
            &&& pos <= end <= data.len()
            &&& moved_up(masters, updated)
            &&& version != 1 ==> updated == masters && holds(data, pos, account_bytes(account))
                && end == pos + account_bytes(account).len()
        }),
{
    let (account, updated, end) = account_at(data, pos, version, masters, others)->Ok_0;
    let n = data.subrange(pos, pos + 1)[0] as int;
    let name = data.subrange(pos + 1, pos + 1 + n);
    decode_utf8_encode_utf8(name);
    let start = pos + 33 + n;
    let pubkey = data.subrange(pos + 1 + n, start);
    match account.kind {
        KindView::Derived { master, index } => {
            let bytes = data.subrange(start + 2, start + 6);
            lemma_le32_back(bytes);
            assert(master_wf(masters[master as int]));
            assert(data.subrange(start, start + 6) =~= kind_bytes(account.kind));
        },
        KindView::Imported { keypair } => {
            assert(data.subrange(start, start + 65) =~= kind_bytes(account.kind));
        },
    }
    assert(data.subrange(pos, end) =~= account_bytes(account));
}

proof fn lemma_written_accounts(
    data: Seq<u8>,
    pos: int,
    version: u8,
    masters: Seq<MasterView>,
    count: nat,
)
    requires
        0 <= pos <= data.len(),
        forall|i: int| 0 <= i < masters.len() ==> master_wf(#[trigger] masters[i]),
        accounts_at(data, pos, version, masters, count) is Ok,
    ensures
        ({
            let (accounts, updated, end) = accounts_at(data, pos, version, masters, count)->Ok_0;
            &&& accounts.len() == count
            &&& forall|i: int| 0 <= i < count ==> account_wf(#[trigger] accounts[i], updated)
            &&& distinct_names(accounts)
            &&& pos <= end <= data.len()
            &&& moved_up(masters, updated)
            &&& version != 1 ==> updated == masters && holds(data, pos, accounts_bytes(accounts))
                && end == pos + accounts_bytes(accounts).len()
        }),
    decreases count,
{
    let (accounts, updated, end) = accounts_at(data, pos, version, masters, count)->Ok_0;
    if count == 0 {
        assert(data.subrange(pos, pos) =~= Seq::empty());
    } else {
        lemma_written_accounts(data, pos, version, masters, (count - 1) as nat);
        let (front, middle, next) = accounts_at(
            data,
            pos,
            version,
            masters,
            (count - 1) as nat,
        )->Ok_0;
        lemma_written_account(data, next, version, middle, front);
        lemma_position(front, accounts.last().name);
        assert forall|i: int| 0 <= i < count implies account_wf(
            #[trigger] accounts[i],
            updated,
        ) by {
            if i < count - 1 {
                assert(accounts[i] == front[i]);
                assert(account_wf(front[i], middle));
                if let KindView::Derived { master, .. } = front[i].kind {
                    assert(middle[master as int].next_index <= updated[master as int].next_index);
                }
            }
        }
        assert forall|i: int, j: int| 0 <= i < j < accounts.len() implies (
        #[trigger] accounts[i]).name != (#[trigger] accounts[j]).name by {
            assert(accounts[i] == front[i]);
            if j < count - 1 {
                assert(accounts[j] == front[j]);
            }
        }
        assert forall|i: int| 0 <= i < masters.len() implies masters[i].next_index <= (
        #[trigger] updated[i]).next_index by {
            assert(masters[i].next_index <= middle[i].next_index);
        }
        if version != 1 {
            assert(accounts.drop_last() =~= front);
            assert(data.subrange(pos, end) =~= data.subrange(pos, next) + data.subrange(next, end));
        }
    }
}

proof fn lemma_written_recipients(data: Seq<u8>, pos: int, count: nat)
    requires
        0 <= pos <= data.len(),
        recipients_at(data, pos, count) is Ok,
    ensures
        ({
            let (recipients, end) = recipients_at(data, pos, count)->Ok_0;
            &&& recipients.len() == count
            &&& forall|i: int| 0 <= i < count ==> (#[trigger] recipients[i]).len() == 32
            &&& pos <= end <= data.len()
            &&& holds(data, pos, recipients_bytes(recipients))
            &&& end == pos + recipients_bytes(recipients).len()
        }),
    decreases count,
{
    let (recipients, end) = recipients_at(data, pos, count)->Ok_0;
    if count == 0 {
        assert(data.subrange(pos, pos) =~= Seq::empty());
    } else {
        lemma_written_recipients(data, pos, (count - 1) as nat);
        let (front, next) = recipients_at(data, pos, (count - 1) as nat)->Ok_0;
        assert forall|i: int| 0 <= i < count implies (#[trigger] recipients[i]).len() == 32 by {
            if i < count - 1 {
                assert(recipients[i] == front[i]);
            }
        }
        assert(recipients.drop_last() =~= front);
        assert(data.subrange(pos, end) =~= data.subrange(pos, next) + data.subrange(next, end));
    }
}

/// Whatever is read is a well-formed vault: every account has a name of its own, every imported
/// key has its address, and no counter would give an index out twice.
pub proof fn read_vault_is_well_formed(data: Seq<u8>, version: u8)
    requires
        vault_of_bytes(data, version) is Ok,
    ensures
        vault_of_bytes(data, version)->Ok_0.wf(),
{
    let vault = vault_of_bytes(data, version)->Ok_0;
    let count = data.subrange(0, 1)[0] as nat;
    lemma_written_masters(data, 1, version, count);
    let (masters, next) = masters_at(data, 1, version, count)->Ok_0;
    let account_count = from_le16(data.subrange(next, next + 2));
    lemma_written_accounts(data, next + 2, version, masters, account_count);
    let (accounts, updated, end) = accounts_at(
        data,
        next + 2,
        version,
        masters,
        account_count,
    )->Ok_0;
    lemma_written_recipients(data, end + 2, from_le16(data.subrange(end, end + 2)));
}

/// A version 2 vault has one form: writing what was read gives the same bytes.
pub proof fn read_bytes_are_canonical(data: Seq<u8>)
    requires
        vault_of_bytes(data, VERSION) is Ok,
    ensures
        vault_bytes(vault_of_bytes(data, VERSION)->Ok_0) == data,
{
    let vault = vault_of_bytes(data, VERSION)->Ok_0;
    let count = data.subrange(0, 1)[0] as nat;
    lemma_written_masters(data, 1, VERSION, count);
    let (masters, next) = masters_at(data, 1, VERSION, count)->Ok_0;
    let account_count = data.subrange(next, next + 2);
    lemma_le16_back(account_count);
    lemma_written_accounts(data, next + 2, VERSION, masters, from_le16(account_count));
    let (accounts, updated, end) = accounts_at(
        data,
        next + 2,
        VERSION,
        masters,
        from_le16(account_count),
    )->Ok_0;
    let recipient_count = data.subrange(end, end + 2);
    lemma_le16_back(recipient_count);
    lemma_written_recipients(data, end + 2, from_le16(recipient_count));
    let whole = data.subrange(0, 1) + data.subrange(1, next) + account_count + data.subrange(
        next + 2,
        end,
    ) + recipient_count + data.subrange(end + 2, data.len() as int);
    assert(data.subrange(0, 1) =~= seq![vault.masters.len() as u8]);
    assert(whole =~= data);
}

/// What is read from some bytes is read from longer ones, too.
proof fn lemma_longer(data: Seq<u8>, more: Seq<u8>, pos: int, n: int)
    requires
        0 <= pos,
        0 <= n,
        bytes_at(data, pos, n) is Ok,
    ensures
        bytes_at(data + more, pos, n) == bytes_at(data, pos, n),
{
    assert((data + more).subrange(pos, pos + n) =~= data.subrange(pos, pos + n));
}

proof fn lemma_longer_masters(data: Seq<u8>, more: Seq<u8>, pos: int, version: u8, count: nat)
    requires
        0 <= pos,
        masters_at(data, pos, version, count) is Ok,
    ensures
        masters_at(data + more, pos, version, count) == masters_at(data, pos, version, count),
        pos <= masters_at(data, pos, version, count)->Ok_0.1,
    decreases count,
{
    if count > 0 {
        lemma_longer_masters(data, more, pos, version, (count - 1) as nat);
        let at = masters_at(data, pos, version, (count - 1) as nat)->Ok_0.1;
        lemma_longer(data, more, at, 1);
        let n = bytes_at(data, at, 1)->Ok_0[0] as int;
        lemma_longer(data, more, at + 1, n);
        if version != 1 {
            lemma_longer(data, more, at + 1 + n, 4);
        }
    }
}

proof fn lemma_longer_account(
    data: Seq<u8>,
    more: Seq<u8>,
    pos: int,
    version: u8,
    masters: Seq<MasterView>,
    others: Seq<AccountView>,
)
    requires
        0 <= pos,
        account_at(data, pos, version, masters, others) is Ok,
    ensures
        account_at(data + more, pos, version, masters, others) == account_at(
            data,
            pos,
            version,
            masters,
            others,
        ),
        pos <= account_at(data, pos, version, masters, others)->Ok_0.2,
{
    lemma_longer(data, more, pos, 1);
    let n = bytes_at(data, pos, 1)->Ok_0[0] as int;
    lemma_longer(data, more, pos + 1, n);
    lemma_longer(data, more, pos + 1 + n, 32);
    let at = pos + 33 + n;
    lemma_longer(data, more, at, 1);
    if bytes_at(data, at, 1)->Ok_0[0] == 0 {
        lemma_longer(data, more, at + 1, 1);
        lemma_longer(data, more, at + 2, 4);
    } else {
        lemma_longer(data, more, at + 1, 64);
    }
}

proof fn lemma_longer_accounts(
    data: Seq<u8>,
    more: Seq<u8>,
    pos: int,
    version: u8,
    masters: Seq<MasterView>,
    count: nat,
)
    requires
        0 <= pos,
        accounts_at(data, pos, version, masters, count) is Ok,
    ensures
        accounts_at(data + more, pos, version, masters, count) == accounts_at(
            data,
            pos,
            version,
            masters,
            count,
        ),
        pos <= accounts_at(data, pos, version, masters, count)->Ok_0.2,
    decreases count,
{
    if count > 0 {
        lemma_longer_accounts(data, more, pos, version, masters, (count - 1) as nat);
        let front = accounts_at(data, pos, version, masters, (count - 1) as nat)->Ok_0;
        lemma_longer_account(data, more, front.2, version, front.1, front.0);
    }
}

proof fn lemma_longer_recipients(data: Seq<u8>, more: Seq<u8>, pos: int, count: nat)
    requires
        0 <= pos,
        recipients_at(data, pos, count) is Ok,
    ensures
        recipients_at(data + more, pos, count) == recipients_at(data, pos, count),
        pos <= recipients_at(data, pos, count)->Ok_0.1,
    decreases count,
{
    if count > 0 {
        lemma_longer_recipients(data, more, pos, (count - 1) as nat);
        lemma_longer(data, more, recipients_at(data, pos, (count - 1) as nat)->Ok_0.1, 32);
    }
}

/// Nothing may follow the bytes of a vault, so no proper prefix of them is the bytes of a vault
/// either.
pub proof fn nothing_follows_a_vault(data: Seq<u8>, more: Seq<u8>, version: u8)
    requires
        vault_of_bytes(data, version) is Ok,
        more.len() > 0,
    ensures
        vault_of_bytes(data + more, version) == Err::<VaultView, Error>(Error::TrailingData),
{
    lemma_longer(data, more, 0, 1);
    let count = bytes_at(data, 0, 1)->Ok_0[0] as nat;
    lemma_longer_masters(data, more, 1, version, count);
    let (masters, next) = masters_at(data, 1, version, count)->Ok_0;
    lemma_longer(data, more, next, 2);
    let count = from_le16(bytes_at(data, next, 2)->Ok_0);
    lemma_longer_accounts(data, more, next + 2, version, masters, count);
    let end = accounts_at(data, next + 2, version, masters, count)->Ok_0.2;
    lemma_longer(data, more, end, 2);
    let count = from_le16(bytes_at(data, end, 2)->Ok_0);
    lemma_longer_recipients(data, more, end + 2, count);
}

/// A proper prefix of the bytes of a vault is refused.
pub proof fn cut_off_vaults_are_refused(data: Seq<u8>, n: int, version: u8)
    requires
        vault_of_bytes(data, version) is Ok,
        0 <= n < data.len(),
    ensures
        vault_of_bytes(data.take(n), version) is Err,
{
    if vault_of_bytes(data.take(n), version) is Ok {
        nothing_follows_a_vault(data.take(n), data.skip(n), version);
        assert(data.take(n) + data.skip(n) =~= data);
    }
}

/// A version 1 vault is migrated without a change: what was read is written as version 2 and read
/// back the same, with every account under its name, address and index.
pub proof fn migration_changes_nothing(data: Seq<u8>)
    requires
        vault_of_bytes(data, 1) is Ok,
    ensures
        vault_of_bytes(vault_bytes(vault_of_bytes(data, 1)->Ok_0), VERSION) == vault_of_bytes(
            data,
            1,
        ),
{
    read_vault_is_well_formed(data, 1);
    vault_round_trip(vault_of_bytes(data, 1)->Ok_0);
}

/// How the parts of a vault are written: a phrase as the length of its entropy, the entropy and its
/// counter; an account as the length of its name, the name, its address, and either a zero with the
/// place of its phrase and its index, or a one with its keypair. Numbers have the lowest byte first.
pub proof fn plain_bytes_are_laid_out(master: MasterView, account: AccountView, count: nat)
    requires
        master_wf(master),
        is_name(account.name),
        account.pubkey.len() == 32,
        count < 65536,
    ensures
        ({
            let bytes = master_bytes(master);
            let n = master.entropy.len() as int;
            &&& bytes.len() == n + 5
            &&& bytes[0] == n
            &&& bytes.subrange(1, 1 + n) == master.entropy
            &&& number_in(bytes.skip(1 + n)) == master.next_index
        }),
        ({
            let bytes = account_bytes(account);
            let n = account.name.len() as int;
            &&& bytes[0] == n
            &&& bytes.subrange(1, 1 + n) == encode_utf8(account.name)
            &&& bytes.subrange(1 + n, 33 + n) == account.pubkey
            &&& account.kind matches KindView::Derived { master, index } ==> bytes.len() == n + 39
                && bytes[33 + n] == 0 && bytes[34 + n] == master && number_in(bytes.skip(35 + n))
                == index
            &&& account.kind matches KindView::Imported { keypair } ==> bytes[33 + n] == 1
                && bytes.skip(34 + n) == keypair
        }),
        le16(count).len() == 2,
        number_in(le16(count)) == count,
{
    let bytes = master_bytes(master);
    let n = master.entropy.len() as int;
    lemma_number_in_le32(master.next_index);
    assert(bytes.subrange(1, 1 + n) =~= master.entropy);
    assert(bytes.skip(1 + n) =~= le32(master.next_index));
    let bytes = account_bytes(account);
    name_bytes(account.name);
    let n = account.name.len() as int;
    assert(bytes.subrange(1, 1 + n) =~= encode_utf8(account.name));
    assert(bytes.subrange(1 + n, 33 + n) =~= account.pubkey);
    match account.kind {
        KindView::Derived { master, index } => {
            lemma_number_in_le32(index);
            assert(bytes.skip(35 + n) =~= le32(index));
        },
        KindView::Imported { keypair } => {
            assert(bytes.skip(34 + n) =~= keypair);
        },
    }
    let pair = le16(count);
    reveal_with_fuel(number_in, 3);
    assert(pair.skip(1)[0] == pair[1]);
    assert(pair.skip(1).skip(1).len() == 0);
}

/// A vault is written as the number of its phrases, the phrases, the number of its accounts, the
/// accounts, the number of its recipients, and the recipients, in order.
pub proof fn vaults_are_written_in_order(
    vault: VaultView,
    master: MasterView,
    account: AccountView,
    recipient: Seq<u8>,
)
    ensures
        vault_bytes(vault) == seq![vault.masters.len() as u8] + masters_bytes(vault.masters) + le16(
            vault.accounts.len(),
        ) + accounts_bytes(vault.accounts) + le16(vault.recipients.len()) + recipients_bytes(
            vault.recipients,
        ),
        masters_bytes(vault.masters.push(master)) == masters_bytes(vault.masters) + master_bytes(
            master,
        ),
        accounts_bytes(vault.accounts.push(account)) == accounts_bytes(vault.accounts)
            + account_bytes(account),
        recipients_bytes(vault.recipients.push(recipient)) == recipients_bytes(vault.recipients)
            + recipient,
{
    assert(vault.masters.push(master).drop_last() =~= vault.masters);
    assert(vault.accounts.push(account).drop_last() =~= vault.accounts);
    assert(vault.recipients.push(recipient).drop_last() =~= vault.recipients);
}

} // verus!
