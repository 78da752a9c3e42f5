//! The wallets of a vault and the operations on them.
use vstd::prelude::*;
use vstd::string::*;

use crate::error::Error;
use crate::mnemonic::{derive_signer, derived_secret, entropy_length, mnemonic_entropy, phrase,
    phrase_text, Mnemonic, INDEX_LIMIT};
use crate::name::{is_name, valid_name};
use crate::pubkey::Pubkey;
use crate::secret::{SecretArray, SecretBytes, SecretText};
use crate::signer::{ed25519_public_key, keypair_round_trip, valid_keypair, Keypair};
use crate::text::{same, same_bytes};

verus! {

/// How many accounts a vault can hold.
pub const MAX_ACCOUNTS: usize = 128;

/// How many recovery phrases a vault can hold.
pub const MAX_MASTERS: usize = 32;

/// How many recipients a vault remembers.
pub const MAX_RECIPIENTS: usize = 256;

// ---------------------------------------------------------------------------------------------
// The model
// ---------------------------------------------------------------------------------------------
/// A recovery phrase: its entropy, and the first account index that was never used.
pub struct MasterView {
    pub entropy: Seq<u8>,
    pub next_index: u32,
}

/// Where the key of an account comes from.
pub enum KindView {
    Derived { master: u8, index: u32 },
    Imported { keypair: Seq<u8> },
}

/// A named account.
pub struct AccountView {
    pub name: Seq<char>,
    pub pubkey: Seq<u8>,
    pub kind: KindView,
}

/// What a vault holds.
pub struct VaultView {
    pub masters: Seq<MasterView>,
    pub accounts: Seq<AccountView>,
    pub recipients: Seq<Seq<u8>>,
}

/// The first account with a name.
pub open spec fn position(accounts: Seq<AccountView>, name: Seq<char>) -> Option<int>
    decreases accounts.len(),
{
    if accounts.len() == 0 {
        None
    } else if position(accounts.drop_last(), name) is Some {
        position(accounts.drop_last(), name)
    } else if accounts.last().name == name {
        Some(accounts.len() - 1)
    } else {
        None
    }
}

/// A master entry holds a phrase and a counter within the range of indices.
pub open spec fn master_wf(master: MasterView) -> bool {
    entropy_length(master.entropy.len()) && 1 <= master.next_index <= INDEX_LIMIT
}

/// An account has a name, and its key comes from a used index of a master entry, or is an imported
/// keypair with this address.
pub open spec fn account_wf(account: AccountView, masters: Seq<MasterView>) -> bool {
    &&& is_name(account.name)
    &&& account.pubkey.len() == 32
    &&& match account.kind {
        KindView::Derived { master, index } => master < masters.len() && index
            < masters[master as int].next_index,
        KindView::Imported { keypair } => valid_keypair(keypair) && account.pubkey
            == keypair.subrange(32, 64),
    }
}

/// No two accounts have the same name.
pub open spec fn distinct_names(accounts: Seq<AccountView>) -> bool {
    forall|i: int, j: int|
        0 <= i < j < accounts.len() ==> (#[trigger] accounts[i]).name != (
        #[trigger] accounts[j]).name
}

impl VaultView {
    /// A vault within its limits, in which every account has a name of its own and a key.
    pub open spec fn wf(self) -> bool {
        &&& self.masters.len() <= MAX_MASTERS
        &&& self.accounts.len() <= MAX_ACCOUNTS
        &&& self.recipients.len() <= MAX_RECIPIENTS
        &&& forall|i: int| 0 <= i < self.masters.len() ==> master_wf(#[trigger] self.masters[i])
        &&& forall|i: int|
            0 <= i < self.accounts.len() ==> account_wf(#[trigger] self.accounts[i], self.masters)
        &&& distinct_names(self.accounts)
        &&& forall|i: int|
            0 <= i < self.recipients.len() ==> (#[trigger] self.recipients[i]).len() == 32
    }

    /// The account with a name.
    pub open spec fn account(self, name: Seq<char>) -> Option<AccountView> {
        match position(self.accounts, name) {
            Some(i) => Some(self.accounts[i]),
            None => None,
        }
    }

    /// Why a name cannot be given to a new account.
    pub open spec fn name_refused(self, name: Seq<char>) -> Option<Error> {
        if !is_name(name) {
            Some(Error::InvalidWalletName)
        } else if position(self.accounts, name) is Some {
            Some(Error::WalletNameExists)
        } else if self.accounts.len() >= MAX_ACCOUNTS {
            Some(Error::AccountLimit)
        } else {
            None
        }
    }
}

/// An account has its key from a phrase with this entropy.
pub open spec fn derives_from(
    account: AccountView,
    masters: Seq<MasterView>,
    entropy: Seq<u8>,
) -> bool {
    account.kind matches KindView::Derived { master, .. } && masters[master as int].entropy
        == entropy
}

/// The master entries that are left when a phrase is erased.
pub open spec fn kept(masters: Seq<MasterView>, erased: Seq<u8>) -> Seq<MasterView>
    decreases masters.len(),
{
    if masters.len() == 0 {
        Seq::empty()
    } else if masters.last().entropy == erased {
        kept(masters.drop_last(), erased)
    } else {
        kept(masters.drop_last(), erased).push(masters.last())
    }
}

/// An account after a phrase was erased: its master entry has moved up by the number of erased
/// entries before it.
pub open spec fn remapped(
    account: AccountView,
    masters: Seq<MasterView>,
    erased: Seq<u8>,
) -> AccountView {
    match account.kind {
        KindView::Derived { master, index } => AccountView {
            kind: KindView::Derived {
                master: kept(masters.take(master as int), erased).len() as u8,
                index,
            },
            ..account
        },
        KindView::Imported { .. } => account,
    }
}

impl VaultView {
    /// Another account than the named one has its key from a phrase with this entropy.
    pub open spec fn used_by_others(self, name: Seq<char>, entropy: Seq<u8>) -> bool {
        exists|i: int|
            0 <= i < self.accounts.len() && (#[trigger] self.accounts[i]).name != name
                && derives_from(self.accounts[i], self.masters, entropy)
    }

    /// What depends on the recovery phrase of an account.
    pub open spec fn phrase_use(self, name: Seq<char>) -> Result<RecoveryPhraseUse, Error> {
        match self.account(name) {
            None => Err(Error::UnknownWallet),
            Some(account) => match account.kind {
                KindView::Imported { .. } => Ok(RecoveryPhraseUse::ImportedKey),
                KindView::Derived { master, .. } => if self.used_by_others(
                    name,
                    self.masters[master as int].entropy,
                ) {
                    Ok(RecoveryPhraseUse::Shared)
                } else {
                    Ok(RecoveryPhraseUse::UnusedAfterDeletion)
                },
            },
        }
    }

    /// The vault without an account and, if asked, without its recovery phrase.
    pub open spec fn without(self, name: Seq<char>, erase_phrase: bool) -> VaultView {
        let at = position(self.accounts, name)->Some_0;
        let rest = self.accounts.remove(at);
        if erase_phrase {
            let erased = self.masters[self.accounts[at].kind->master as int].entropy;
            VaultView {
                masters: kept(self.masters, erased),
                accounts: rest.map_values(|a: AccountView| remapped(a, self.masters, erased)),
                recipients: self.recipients,
            }
        } else {
            VaultView { accounts: rest, ..self }
        }
    }

    /// The vault with a new phrase and its first account.
    pub open spec fn with_master(self, name: Seq<char>, entropy: Seq<u8>) -> VaultView {
        VaultView {
            masters: self.masters.push(MasterView { entropy, next_index: 1 }),
            accounts: self.accounts.push(
                AccountView {
                    name,
                    pubkey: ed25519_public_key(derived_secret(entropy, 0)),
                    kind: KindView::Derived { master: self.masters.len() as u8, index: 0 },
                },
            ),
            recipients: self.recipients,
        }
    }

    /// The vault with another account of the first phrase.
    pub open spec fn with_derived(self, name: Seq<char>) -> VaultView {
        let first = self.masters[0];
        VaultView {
            masters: self.masters.update(
                0,
                MasterView { next_index: (first.next_index + 1) as u32, ..first },
            ),
            accounts: self.accounts.push(
                AccountView {
                    name,
                    pubkey: ed25519_public_key(derived_secret(first.entropy, first.next_index)),
                    kind: KindView::Derived { master: 0, index: first.next_index },
                },
            ),
            recipients: self.recipients,
        }
    }

    /// The vault with an imported keypair.
    pub open spec fn with_imported(self, name: Seq<char>, keypair: Seq<u8>) -> VaultView {
        VaultView {
            accounts: self.accounts.push(
                AccountView {
                    name,
                    pubkey: keypair.subrange(32, 64),
                    kind: KindView::Imported { keypair },
                },
            ),
            ..self
        }
    }

    /// The secret key of an account, where the vault holds what it takes to make it.
    pub open spec fn secret_of(self, account: AccountView) -> Result<Seq<u8>, Error> {
        match account.kind {
            KindView::Imported { keypair } => if keypair.len() != 64 {
                Err(Error::InvalidKeypairLength)
            } else if !valid_keypair(keypair) {
                Err(Error::KeypairMismatch)
            } else {
                Ok(keypair.subrange(0, 32))
            },
            KindView::Derived { master, index } => if master >= self.masters.len() {
                Err(Error::InvalidMasterReference)
            } else {
                let entropy = self.masters[master as int].entropy;
                if !entropy_length(entropy.len()) {
                    Err(Error::EntropyLength(entropy.len() as usize))
                } else if index >= INDEX_LIMIT {
                    Err(Error::IndexTooLarge)
                } else {
                    Ok(derived_secret(entropy, index))
                }
            },
        }
    }

    /// The secret key that signs for an account, if it belongs to the account's address.
    pub open spec fn signing_secret(self, name: Seq<char>) -> Result<Seq<u8>, Error> {
        match self.account(name) {
            None => Err(Error::UnknownWallet),
            Some(account) => match self.secret_of(account) {
                Err(error) => Err(error),
                Ok(secret) => if ed25519_public_key(secret) != account.pubkey {
                    Err(Error::AddressMismatch)
                } else {
                    Ok(secret)
                },
            },
        }
    }
}

proof fn lemma_kept_concat(a: Seq<MasterView>, b: Seq<MasterView>, erased: Seq<u8>)
    ensures
        kept(a + b, erased) == kept(a, erased) + kept(b, erased),
        kept(a, erased).len() <= a.len(),
    decreases b.len(), a.len(),
{
    if b.len() == 0 {
        assert(a + b =~= a);
        assert(kept(a, erased) + kept(b, erased) =~= kept(a, erased));
        if a.len() > 0 {
            lemma_kept_concat(a.drop_last(), b, erased);
        }
    } else {
        lemma_kept_concat(a, b.drop_last(), erased);
        assert((a + b).drop_last() =~= a + b.drop_last());
        assert((a + b).last() == b.last());
        if b.last().entropy != erased {
            assert(kept(a + b, erased) =~= kept(a, erased) + kept(b, erased));
        }
    }
}

proof fn lemma_kept_first(first: MasterView, rest: Seq<MasterView>, erased: Seq<u8>)
    ensures
        kept(seq![first] + rest, erased) == if first.entropy == erased {
            kept(rest, erased)
        } else {
            seq![first] + kept(rest, erased)
        },
{
    let one = seq![first];
    lemma_kept_concat(one, rest, erased);
    assert(one.drop_last() =~= Seq::empty());
    reveal_with_fuel(kept, 2);
    assert(kept(one, erased) =~= if first.entropy == erased {
        Seq::empty()
    } else {
        one
    });
    assert(kept(one, erased) + kept(rest, erased) =~= if first.entropy == erased {
        kept(rest, erased)
    } else {
        one + kept(rest, erased)
    });
}

/// An entry that is not erased stands, after the erasure, at the number of kept entries before it.
pub proof fn lemma_kept_at(masters: Seq<MasterView>, erased: Seq<u8>, at: int)
    requires
        0 <= at < masters.len(),
        masters[at].entropy != erased,
    ensures
        kept(masters.take(at), erased).len() < kept(masters, erased).len(),
        kept(masters.take(at), erased).len() <= at,
        kept(masters, erased)[kept(masters.take(at), erased).len() as int] == masters[at],
{
    let front = masters.take(at);
    let tail = masters.skip(at);
    let rest = masters.skip(at + 1);
    assert(masters =~= front + tail);
    assert(tail =~= seq![masters[at]] + rest);
    lemma_kept_concat(front, tail, erased);
    lemma_kept_first(masters[at], rest, erased);
}

/// Every kept entry is an entry, and none has the erased phrase.
proof fn lemma_kept_entries(masters: Seq<MasterView>, erased: Seq<u8>)
    ensures
        kept(masters, erased).len() <= masters.len(),
        forall|i: int|
            0 <= i < kept(masters, erased).len() ==> masters.contains(
                #[trigger] kept(masters, erased)[i],
            ) && kept(masters, erased)[i].entropy != erased,
    decreases masters.len(),
{
    if masters.len() > 0 {
        let front = masters.drop_last();
        lemma_kept_entries(front, erased);
        assert forall|i: int| 0 <= i < kept(masters, erased).len() implies masters.contains(
            #[trigger] kept(masters, erased)[i],
        ) && kept(masters, erased)[i].entropy != erased by {
            if i < kept(front, erased).len() {
                let m = kept(front, erased)[i];
                assert(front.contains(m));
                let k = choose|k: int| 0 <= k < front.len() && front[k] == m;
                assert(masters[k] == m);
            } else {
                assert(masters[masters.len() - 1] == masters.last());
            }
        }
    }
}

/// A position is the first of its name; without one no account has the name.
pub proof fn lemma_position(accounts: Seq<AccountView>, name: Seq<char>)
    ensures
        match position(accounts, name) {
            Some(i) => 0 <= i < accounts.len() && accounts[i].name == name && forall|k: int|
                0 <= k < i ==> (#[trigger] accounts[k]).name != name,
            None => forall|k: int| 0 <= k < accounts.len() ==> (#[trigger] accounts[k]).name != name,
        },
    decreases accounts.len(),
{
    if accounts.len() > 0 {
        let front = accounts.drop_last();
        lemma_position(front, name);
        if let Some(i) = position(front, name) {
            assert(front[i] == accounts[i]);
            assert forall|k: int| 0 <= k < i implies (#[trigger] accounts[k]).name != name by {
                assert(front[k] == accounts[k]);
            }
        } else {
            assert forall|k: int| 0 <= k < accounts.len() - 1 implies (
            #[trigger] accounts[k]).name != name by {
                assert(front[k] == accounts[k]);
            }
        }
    }
}

/// An index is the position of a name if it is the first with the name.
pub proof fn lemma_position_is(accounts: Seq<AccountView>, name: Seq<char>, at: int)
    requires
        0 <= at < accounts.len(),
        accounts[at].name == name,
        forall|k: int| 0 <= k < at ==> (#[trigger] accounts[k]).name != name,
    ensures
        position(accounts, name) == Some(at),
{
    lemma_position(accounts, name);
    match position(accounts, name) {
        Some(i) => {
            if i < at {
                assert(accounts[i].name != name);
            }
            if at < i {
                assert(accounts[at].name != name);
            }
        },
        None => {
            assert(accounts[at].name != name);
        },
    }
}

/// Appending an account that fits keeps a vault well formed.
proof fn lemma_push_account_wf(old: VaultView, new: VaultView, account: AccountView)
    requires
        old.wf(),
        old.name_refused(account.name) is None,
        new.accounts == old.accounts.push(account),
        new.recipients == old.recipients,
        new.masters.len() <= MAX_MASTERS,
        old.masters.len() <= new.masters.len(),
        account_wf(account, new.masters),
        forall|i: int| 0 <= i < new.masters.len() ==> master_wf(#[trigger] new.masters[i]),
        forall|i: int|
            0 <= i < old.masters.len() ==> old.masters[i].next_index <= (
            #[trigger] new.masters[i]).next_index,
    ensures
        new.wf(),
{
    lemma_position(old.accounts, account.name);
    assert forall|i: int| 0 <= i < new.accounts.len() implies account_wf(
        #[trigger] new.accounts[i],
        new.masters,
    ) by {
        if i < old.accounts.len() {
            assert(new.accounts[i] == old.accounts[i]);
            assert(account_wf(old.accounts[i], old.masters));
            if let KindView::Derived { master, .. } = old.accounts[i].kind {
                assert(old.masters[master as int].next_index <= new.masters[master as int].next_index);
            }
        }
    }
    assert forall|i: int, j: int| 0 <= i < j < new.accounts.len() implies (
    #[trigger] new.accounts[i]).name != (#[trigger] new.accounts[j]).name by {
        assert(new.accounts[i] == old.accounts[i]);
        if j < old.accounts.len() {
            assert(new.accounts[j] == old.accounts[j]);
        }
    }
}

proof fn lemma_with_master_wf(vault: VaultView, name: Seq<char>, entropy: Seq<u8>)
    requires
        vault.name_refused(name) is None,
        vault.masters.len() < MAX_MASTERS,
        entropy_length(entropy.len()),
        ed25519_public_key(derived_secret(entropy, 0)).len() == 32,
    ensures
        vault.wf() ==> vault.with_master(name, entropy).wf(),
{
    if vault.wf() {
        let new = vault.with_master(name, entropy);
        assert forall|i: int| 0 <= i < new.masters.len() implies master_wf(
            #[trigger] new.masters[i],
        ) by {
            if i < vault.masters.len() {
                assert(new.masters[i] == vault.masters[i]);
            }
        }
        lemma_push_account_wf(vault, new, new.accounts.last());
    }
}

proof fn lemma_with_derived_wf(vault: VaultView, name: Seq<char>)
    requires
        vault.name_refused(name) is None,
        vault.masters.len() > 0,
        vault.masters[0].next_index < INDEX_LIMIT,
        ed25519_public_key(
            derived_secret(vault.masters[0].entropy, vault.masters[0].next_index),
        ).len() == 32,
    ensures
        vault.wf() ==> vault.with_derived(name).wf(),
{
    if vault.wf() {
        let new = vault.with_derived(name);
        assert(master_wf(vault.masters[0]));
        assert forall|i: int| 0 <= i < new.masters.len() implies master_wf(
            #[trigger] new.masters[i],
        ) by {
            if i > 0 {
                assert(new.masters[i] == vault.masters[i]);
            }
        }
        lemma_push_account_wf(vault, new, new.accounts.last());
    }
}

proof fn lemma_with_imported_wf(vault: VaultView, name: Seq<char>, keypair: Seq<u8>)
    requires
        vault.name_refused(name) is None,
        valid_keypair(keypair),
    ensures
        vault.wf() ==> vault.with_imported(name, keypair).wf(),
{
    if vault.wf() {
        let new = vault.with_imported(name, keypair);
        lemma_push_account_wf(vault, new, new.accounts.last());
    }
}

/// An account while the entries from `from` on have been erased: a reference to one of those has
/// moved up.
spec fn shifted(
    account: AccountView,
    masters: Seq<MasterView>,
    erased: Seq<u8>,
    from: int,
) -> AccountView {
    match account.kind {
        KindView::Derived { master, index } => if master < from {
            account
        } else {
            AccountView {
                kind: KindView::Derived {
                    master: (from + kept(masters.subrange(from, master as int), erased).len()) as u8,
                    index,
                },
                ..account
            }
        },
        KindView::Imported { .. } => account,
    }
}

/// An account after the entry at `index` was dropped, if it was.
spec fn lowered(account: AccountView, index: int, dropped: bool) -> AccountView {
    match account.kind {
        KindView::Derived { master, index: own } => if dropped && master > index {
            AccountView {
                kind: KindView::Derived { master: (master - 1) as u8, index: own },
                ..account
            }
        } else {
            account
        },
        KindView::Imported { .. } => account,
    }
}

proof fn lemma_shift_step(
    account: AccountView,
    masters: Seq<MasterView>,
    erased: Seq<u8>,
    index: int,
)
    requires
        0 <= index < masters.len() <= 32,
        account_wf(account, masters),
        !derives_from(account, masters, erased),
    ensures
        shifted(account, masters, erased, index) == lowered(
            shifted(account, masters, erased, index + 1),
            index,
            masters[index].entropy == erased,
        ),
{
    if let KindView::Derived { master, .. } = account.kind {
        if master > index {
            let part = masters.subrange(index + 1, master as int);
            assert(masters.subrange(index, master as int) =~= seq![masters[index]] + part);
            lemma_kept_first(masters[index], part, erased);
            lemma_kept_entries(part, erased);
        } else if master == index {
            assert(masters.subrange(index, index) =~= Seq::empty());
        }
    }
}

/// Removing an account keeps a vault well formed.
proof fn lemma_remove_account_wf(vault: VaultView, at: int)
    requires
        vault.wf(),
        0 <= at < vault.accounts.len(),
    ensures
        (VaultView { accounts: vault.accounts.remove(at), ..vault }).wf(),
{
    let rest = vault.accounts.remove(at);
    assert forall|i: int| 0 <= i < rest.len() implies account_wf(
        #[trigger] rest[i],
        vault.masters,
    ) by {
        assert(rest[i] == if i < at {
            vault.accounts[i]
        } else {
            vault.accounts[i + 1]
        });
    }
    assert forall|i: int, j: int| 0 <= i < j < rest.len() implies (#[trigger] rest[i]).name != (
    #[trigger] rest[j]).name by {
        let a = if i < at { i } else { i + 1 };
        let b = if j < at { j } else { j + 1 };
        assert(rest[i] == vault.accounts[a]);
        assert(rest[j] == vault.accounts[b]);
    }
}

/// Where a phrase is unused after the deletion of an account, no other account refers to it.
proof fn lemma_no_other_reference(vault: VaultView, name: Seq<char>, at: int, erased: Seq<u8>)
    requires
        vault.wf(),
        0 <= at < vault.accounts.len(),
        vault.accounts[at].name == name,
        !vault.used_by_others(name, erased),
    ensures
        forall|i: int|
            0 <= i < vault.accounts.len() - 1 ==> !derives_from(
                #[trigger] vault.accounts.remove(at)[i],
                vault.masters,
                erased,
            ) && account_wf(vault.accounts.remove(at)[i], vault.masters),
{
    let rest = vault.accounts.remove(at);
    assert forall|i: int| 0 <= i < rest.len() implies !derives_from(
        #[trigger] rest[i],
        vault.masters,
        erased,
    ) && account_wf(rest[i], vault.masters) by {
        let a = if i < at { i } else { i + 1 };
        assert(rest[i] == vault.accounts[a]);
        assert(vault.accounts[a].name != name);
    }
}

/// Erasing a phrase that no other account uses keeps a vault well formed.
proof fn lemma_erase_wf(vault: VaultView, name: Seq<char>, at: int, erased: Seq<u8>)
    requires
        vault.wf(),
        position(vault.accounts, name) == Some(at),
        0 <= at < vault.accounts.len(),
        vault.accounts[at].name == name,
        vault.accounts[at].kind is Derived,
        vault.masters[vault.accounts[at].kind->master as int].entropy == erased,
        !vault.used_by_others(name, erased),
    ensures
        vault.without(name, true).wf(),
{
    let rest = vault.accounts.remove(at);
    let new = vault.without(name, true);
    lemma_remove_account_wf(vault, at);
    lemma_no_other_reference(vault, name, at, erased);
    lemma_kept_entries(vault.masters, erased);
    assert forall|i: int| 0 <= i < new.masters.len() implies master_wf(#[trigger] new.masters[i]) by {
        let k = choose|k: int| 0 <= k < vault.masters.len() && vault.masters[k] == new.masters[i];
        assert(vault.masters.contains(new.masters[i]));
        assert(master_wf(vault.masters[k]));
    }
    assert forall|i: int| 0 <= i < new.accounts.len() implies account_wf(
        #[trigger] new.accounts[i],
        new.masters,
    ) by {
        assert(new.accounts[i] == remapped(rest[i], vault.masters, erased));
        assert(account_wf(rest[i], vault.masters));
        if let KindView::Derived { master, .. } = rest[i].kind {
            lemma_kept_at(vault.masters, erased, master as int);
        }
    }
    assert forall|i: int, j: int| 0 <= i < j < new.accounts.len() implies (
    #[trigger] new.accounts[i]).name != (#[trigger] new.accounts[j]).name by {
        assert(new.accounts[i] == remapped(rest[i], vault.masters, erased));
        assert(new.accounts[j] == remapped(rest[j], vault.masters, erased));
        assert(rest[i].name != rest[j].name);
    }
}

// ---------------------------------------------------------------------------------------------
// The types
// ---------------------------------------------------------------------------------------------
/// A recovery phrase: its entropy, and the first account index that was never used.
pub struct Master {
    pub entropy: SecretBytes,
    pub next_index: u32,
}

impl View for Master {
    type V = MasterView;

    open spec fn view(&self) -> MasterView {
        MasterView { entropy: self.entropy@, next_index: self.next_index }
    }
}

/// What depends on the recovery phrase of an account.
#[derive(Clone, Copy, Debug, PartialEq, Eq, Structural)]
pub enum RecoveryPhraseUse {
    /// The account has an imported key and no phrase.
    ImportedKey,
    /// Another account has its key from the same phrase.
    Shared,
    /// No other account has its key from the phrase.
    UnusedAfterDeletion,
}

/// Where the key of an account comes from.
pub enum AccountKind {
    Derived { master: u8, index: u32 },
    Imported { keypair: SecretArray<64> },
}

impl View for AccountKind {
    type V = KindView;

    open spec fn view(&self) -> KindView {
        match self {
            AccountKind::Derived { master, index } => KindView::Derived {
                master: *master,
                index: *index,
            },
            AccountKind::Imported { keypair } => KindView::Imported { keypair: keypair@ },
        }
    }
}

/// A named account.
pub struct Account {
    pub name: String,
    pub pubkey: Pubkey,
    pub kind: AccountKind,
}

impl View for Account {
    type V = AccountView;

    open spec fn view(&self) -> AccountView {
        AccountView { name: self.name@, pubkey: self.pubkey@, kind: self.kind@ }
    }
}

/// The recovery phrases, accounts and known recipients of a user.
pub struct Vault {
    pub masters: Vec<Master>,
    pub accounts: Vec<Account>,
    pub recipients: Vec<[u8; 32]>,
    /// The sealed file that the vault was read from or last written to. A save is refused where
    /// the file holds something else.
    pub source_bytes: Option<Vec<u8>>,
}

/// The views of master entries.
pub open spec fn master_views(masters: Seq<Master>) -> Seq<MasterView> {
    masters.map_values(|m: Master| m@)
}

/// The views of accounts.
pub open spec fn account_views(accounts: Seq<Account>) -> Seq<AccountView> {
    accounts.map_values(|a: Account| a@)
}

/// The views of recipients.
pub open spec fn recipient_views(recipients: Seq<[u8; 32]>) -> Seq<Seq<u8>> {
    recipients.map_values(|r: [u8; 32]| r@)
}

impl View for Vault {
    type V = VaultView;

    open spec fn view(&self) -> VaultView {
        VaultView {
            masters: master_views(self.masters@),
            accounts: account_views(self.accounts@),
            recipients: recipient_views(self.recipients@),
        }
    }
}

impl Default for Vault {
    fn default() -> (vault: Self)
        ensures
            vault@ == (VaultView {
                masters: Seq::empty(),
                accounts: Seq::empty(),
                recipients: Seq::empty(),
            }),
            vault@.wf(),
            vault.source_bytes is None,
    {
        let vault = Vault {
            masters: Vec::new(),
            accounts: Vec::new(),
            recipients: Vec::new(),
            source_bytes: None,
        };
        assert(vault@.masters =~= Seq::empty());
        assert(vault@.accounts =~= Seq::empty());
        assert(vault@.recipients =~= Seq::empty());
        vault
    }
}

impl Vault {
    // -----------------------------------------------------------------------------------------
    // Looking up
    // -----------------------------------------------------------------------------------------
    /// The position of the account with a name.
    fn find(&self, name: &str) -> (at: Option<usize>)
        ensures
            match at {
                Some(i) => position(self@.accounts, name@) == Some(i as int) && i
                    < self.accounts@.len() && self.accounts@[i as int].name@ == name@,
                None => position(self@.accounts, name@) is None,
            },
    {
        let mut i: usize = 0;
        while i < self.accounts.len()
            invariant
                i <= self.accounts@.len(),
                forall|k: int| 0 <= k < i ==> (#[trigger] self@.accounts[k]).name != name@,
            decreases self.accounts@.len() - i,
        {
            if same(self.accounts[i].name.as_str(), name) {
                proof {
                    assert(self@.accounts[i as int] == self.accounts@[i as int]@);
                    lemma_position_is(self@.accounts, name@, i as int);
                }
                return Some(i);
            }
            assert(self@.accounts[i as int] == self.accounts@[i as int]@);
            i += 1;
        }
        proof {
            lemma_position(self@.accounts, name@);
        }
        None
    }

    /// Tells whether the vault has an account with a name.
    pub fn contains(&self, name: &str) -> (yes: bool)
        ensures
            yes == self@.account(name@) is Some,
    {
        self.find(name).is_some()
    }

    /// The account with a name.
    pub fn account(&self, name: &str) -> (account: Result<&Account, Error>)
        ensures
            match self@.account(name@) {
                Some(a) => account matches Ok(found) && found@ == a && self.accounts@.contains(
                    *found,
                ),
                None => account == Err::<&Account, Error>(Error::UnknownWallet),
            },
    {
        match self.find(name) {
            Some(i) => {
                assert(self@.accounts[i as int] == self.accounts@[i as int]@);
                Ok(&self.accounts[i])
            },
            None => Err(Error::UnknownWallet),
        }
    }

    /// The name of the first account.
    pub fn first_name(&self) -> (name: Result<&str, Error>)
        ensures
            self@.accounts.len() == 0 ==> name == Err::<&str, Error>(Error::NoAccounts),
            self@.accounts.len() > 0 ==> (name matches Ok(n) && n@ == self@.accounts[0].name),
    {
        if self.accounts.len() == 0 {
            Err(Error::NoAccounts)
        } else {
            assert(self@.accounts[0] == self.accounts@[0]@);
            Ok(self.accounts[0].name.as_str())
        }
    }

    /// The given name, or else the name of the first account.
    pub fn name_or_first<'a>(&'a self, name: Option<&'a str>) -> (result: Result<&'a str, Error>)
        ensures
            match name {
                Some(n) => result matches Ok(r) && r@ == n@,
                None => if self@.accounts.len() == 0 {
                    result == Err::<&str, Error>(Error::NoAccounts)
                } else {
                    result matches Ok(r) && r@ == self@.accounts[0].name
                },
            },
    {
        match name {
            Some(name) => Ok(name),
            None => self.first_name(),
        }
    }

    /// The derivation index of an account; an imported key has none.
    pub fn derivation_index(&self, name: &str) -> (index: Result<Option<u32>, Error>)
        ensures
            match self@.account(name@) {
                Some(a) => match a.kind {
                    KindView::Derived { index: i, .. } => index == Ok::<Option<u32>, Error>(Some(i)),
                    KindView::Imported { .. } => index == Ok::<Option<u32>, Error>(None),
                },
                None => index == Err::<Option<u32>, Error>(Error::UnknownWallet),
            },
    {
        match self.account(name) {
            Ok(account) => match &account.kind {
                AccountKind::Derived { index, .. } => Ok(Some(*index)),
                AccountKind::Imported { .. } => Ok(None),
            },
            Err(error) => Err(error),
        }
    }

    // -----------------------------------------------------------------------------------------
    // Recipients
    // -----------------------------------------------------------------------------------------
    /// Tells whether a transfer to an address was confirmed before.
    pub fn is_known_recipient(&self, pubkey: &Pubkey) -> (known: bool)
        ensures
            known == self@.recipients.contains(pubkey@),
    {
        let mut i: usize = 0;
        while i < self.recipients.len()
            invariant
                i <= self.recipients@.len(),
                forall|k: int| 0 <= k < i ==> #[trigger] self@.recipients[k] != pubkey@,
            decreases self.recipients@.len() - i,
        {
            if same_bytes(&self.recipients[i], &pubkey.bytes) {
                assert(self@.recipients[i as int] == pubkey@);
                return true;
            }
            i += 1;
        }
        false
    }

    /// Remembers an address, unless it is known or there are too many.
    pub fn remember_recipient(&mut self, pubkey: &Pubkey)
        ensures
            final(self)@ == (VaultView {
                recipients: if old(self)@.recipients.contains(pubkey@)
                    || old(self)@.recipients.len() >= MAX_RECIPIENTS {
                    old(self)@.recipients
                } else {
                    old(self)@.recipients.push(pubkey@)
                },
                ..old(self)@
            }),
            final(self).source_bytes == old(self).source_bytes,
            old(self)@.wf() ==> final(self)@.wf(),
    {
        if !self.is_known_recipient(pubkey) && self.recipients.len() < MAX_RECIPIENTS {
            self.recipients.push(pubkey.bytes);
            assert(self@.recipients =~= old(self)@.recipients.push(pubkey@));
        }
    }

    // -----------------------------------------------------------------------------------------
    // Adding
    // -----------------------------------------------------------------------------------------
    /// Checks that a new account can have a name.
    fn ensure_new_name(&self, name: &str) -> (result: Result<(), Error>)
        ensures
            match self@.name_refused(name@) {
                Some(error) => result == Err::<(), Error>(error),
                None => result is Ok,
            },
    {
        if !valid_name(name) {
            return Err(Error::InvalidWalletName);
        }
        if self.contains(name) {
            return Err(Error::WalletNameExists);
        }
        if self.accounts.len() >= MAX_ACCOUNTS {
            return Err(Error::AccountLimit);
        }
        Ok(())
    }

    /// Adds a recovery phrase and its first account.
    pub fn add_master(&mut self, name: &str, entropy: SecretBytes) -> (result: Result<(), Error>)
        ensures
            final(self).source_bytes == old(self).source_bytes,
            ({
                let refused = match old(self)@.name_refused(name@) {
                    Some(error) => Some(error),
                    None => if old(self)@.masters.len() >= MAX_MASTERS {
                        Some(Error::MasterLimit)
                    } else if !entropy_length(entropy@.len()) {
                        Some(Error::EntropyLength(entropy@.len() as usize))
                    } else {
                        None
                    },
                };
                match refused {
                    Some(error) => result == Err::<(), Error>(error) && final(self)@ == old(self)@,
                    None => result is Ok && final(self)@ == old(self)@.with_master(name@, entropy@),
                }
            }),
            old(self)@.wf() ==> final(self)@.wf(),
    {
        if let Err(error) = self.ensure_new_name(name) {
            return Err(error);
        }
        if self.masters.len() >= MAX_MASTERS {
            return Err(Error::MasterLimit);
        }
        let mnemonic = match Mnemonic::from_entropy(entropy.as_slice()) {
            Ok(mnemonic) => mnemonic,
            Err(error) => return Err(error),
        };
        let master: u8 = self.masters.len() as u8;
        let pubkey = match derive_signer(&mnemonic, 0) {
            Ok(keypair) => keypair.pubkey(),
            Err(error) => return Err(error),
        };
        self.masters.push(Master { entropy, next_index: 1 });
        self.accounts.push(
            Account {
                name: name.to_owned(),
                pubkey,
                kind: AccountKind::Derived { master, index: 0 },
            },
        );
        proof {
            let expected = old(self)@.with_master(name@, entropy@);
            assert(self@.masters =~= expected.masters);
            assert(self@.accounts =~= expected.accounts);
            lemma_with_master_wf(old(self)@, name@, entropy@);
        }
        Ok(())
    }

    /// Adds the next account of the first recovery phrase.
    pub fn add_derived(&mut self, name: &str) -> (result: Result<(), Error>)
        ensures
            final(self).source_bytes == old(self).source_bytes,
            ({
                let refused = match old(self)@.name_refused(name@) {
                    Some(error) => Some(error),
                    None => if old(self)@.masters.len() == 0 {
                        Some(Error::NoMaster)
                    } else if !entropy_length(old(self)@.masters[0].entropy.len()) {
                        Some(Error::EntropyLength(old(self)@.masters[0].entropy.len() as usize))
                    } else if old(self)@.masters[0].next_index >= INDEX_LIMIT {
                        Some(Error::IndexTooLarge)
                    } else {
                        None
                    },
                };
                match refused {
                    Some(error) => result == Err::<(), Error>(error) && final(self)@ == old(self)@,
                    None => result is Ok && final(self)@ == old(self)@.with_derived(name@),
                }
            }),
            old(self)@.wf() ==> final(self)@.wf(),
    {
        if let Err(error) = self.ensure_new_name(name) {
            return Err(error);
        }
        if self.masters.len() == 0 {
            return Err(Error::NoMaster);
        }
        assert(self@.masters[0] == self.masters@[0]@);
        let next: u32 = self.masters[0].next_index;
        let mnemonic = match Mnemonic::from_entropy(self.masters[0].entropy.as_slice()) {
            Ok(mnemonic) => mnemonic,
            Err(error) => return Err(error),
        };
        let pubkey = match derive_signer(&mnemonic, next) {
            Ok(keypair) => keypair.pubkey(),
            Err(error) => return Err(error),
        };
        self.accounts.push(
            Account {
                name: name.to_owned(),
                pubkey,
                kind: AccountKind::Derived { master: 0, index: next },
            },
        );
        self.masters[0].next_index = next + 1;
        proof {
            let expected = old(self)@.with_derived(name@);
            assert(self@.masters =~= expected.masters);
            assert(self@.accounts =~= expected.accounts);
            lemma_with_derived_wf(old(self)@, name@);
        }
        Ok(())
    }

    /// Adds an imported keypair.
    pub fn add_imported(&mut self, name: &str, bytes: SecretArray<64>) -> (result: Result<
        (),
        Error,
    >)
        ensures
            final(self).source_bytes == old(self).source_bytes,
            ({
                let refused = match old(self)@.name_refused(name@) {
                    Some(error) => Some(error),
                    None => if !valid_keypair(bytes@) {
                        Some(Error::KeypairMismatch)
                    } else {
                        None
                    },
                };
                match refused {
                    Some(error) => result == Err::<(), Error>(error) && final(self)@ == old(self)@,
                    None => result is Ok && final(self)@ == old(self)@.with_imported(name@, bytes@),
                }
            }),
            old(self)@.wf() ==> final(self)@.wf(),
    {
        if let Err(error) = self.ensure_new_name(name) {
            return Err(error);
        }
        let keypair = match Keypair::try_from(bytes.as_array()) {
            Ok(keypair) => keypair,
            Err(error) => return Err(error),
        };
        let pubkey = keypair.pubkey();
        self.accounts.push(
            Account { name: name.to_owned(), pubkey, kind: AccountKind::Imported { keypair: bytes } },
        );
        proof {
            let expected = old(self)@.with_imported(name@, bytes@);
            assert(self@.masters =~= expected.masters);
            assert(self@.accounts =~= expected.accounts);
            lemma_with_imported_wf(old(self)@, name@, bytes@);
        }
        Ok(())
    }

    // -----------------------------------------------------------------------------------------
    // Secrets
    // -----------------------------------------------------------------------------------------
    /// The recovery phrase of an account.
    pub fn mnemonic(&self, name: &str) -> (text: Result<SecretText, Error>)
        ensures
            match self@.account(name@) {
                None => text == Err::<SecretText, Error>(Error::UnknownWallet),
                Some(account) => match account.kind {
                    KindView::Imported { .. } => text == Err::<SecretText, Error>(
                        Error::NoRecoveryPhrase,
                    ),
                    KindView::Derived { master, .. } => if master >= self@.masters.len() {
                        text == Err::<SecretText, Error>(Error::InvalidMasterReference)
                    } else {
                        let entropy = self@.masters[master as int].entropy;
                        if !entropy_length(entropy.len()) {
                            text == Err::<SecretText, Error>(
                                Error::EntropyLength(entropy.len() as usize),
                            )
                        } else {
                            text matches Ok(t) && t@ == phrase_text(entropy) && mnemonic_entropy(
                                t@,
                            ) is Ok && mnemonic_entropy(t@)->Ok_0 == entropy
                        }
                    },
                },
            },
    {
        let account = match self.account(name) {
            Ok(account) => account,
            Err(error) => return Err(error),
        };
        match &account.kind {
            AccountKind::Derived { master, .. } => {
                let master: usize = *master as usize;
                if master >= self.masters.len() {
                    return Err(Error::InvalidMasterReference);
                }
                assert(self@.masters[master as int] == self.masters@[master as int]@);
                phrase(self.masters[master].entropy.as_slice())
            },
            AccountKind::Imported { .. } => Err(Error::NoRecoveryPhrase),
        }
    }

    /// The keypair of an account.
    pub fn signer(&self, name: &str) -> (keypair: Result<Keypair, Error>)
        ensures
            match self@.signing_secret(name@) {
                Ok(secret) => keypair matches Ok(k) && k@ == secret,
                Err(error) => keypair == Err::<Keypair, Error>(error),
            },
    {
        let account = match self.account(name) {
            Ok(account) => account,
            Err(error) => return Err(error),
        };
        let made = match &account.kind {
            AccountKind::Imported { keypair } => Keypair::try_from(keypair.as_array()),
            AccountKind::Derived { master, index } => {
                let master: usize = *master as usize;
                if master >= self.masters.len() {
                    return Err(Error::InvalidMasterReference);
                }
                assert(self@.masters[master as int] == self.masters@[master as int]@);
                match Mnemonic::from_entropy(self.masters[master].entropy.as_slice()) {
                    Ok(mnemonic) => derive_signer(&mnemonic, *index),
                    Err(error) => Err(error),
                }
            },
        };
        let keypair = match made {
            Ok(keypair) => keypair,
            Err(error) => return Err(error),
        };
        if !keypair.pubkey().same(&account.pubkey) {
            return Err(Error::AddressMismatch);
        }
        Ok(keypair)
    }

    // -----------------------------------------------------------------------------------------
    // Removing
    // -----------------------------------------------------------------------------------------
    /// Tells what depends on the recovery phrase of an account. The same phrase may have been
    /// imported into more than one master entry.
    pub fn recovery_phrase_use(&self, name: &str) -> (usage: Result<RecoveryPhraseUse, Error>)
        requires
            self@.wf(),
        ensures
            usage == self@.phrase_use(name@),
    {
        let account = match self.account(name) {
            Ok(account) => account,
            Err(error) => return Err(error),
        };
        let ghost at = position(self@.accounts, name@)->Some_0;
        proof {
            lemma_position(self@.accounts, name@);
            assert(account_wf(self@.accounts[at], self@.masters));
        }
        let own: usize = match &account.kind {
            AccountKind::Derived { master, .. } => *master as usize,
            AccountKind::Imported { .. } => return Ok(RecoveryPhraseUse::ImportedKey),
        };
        let ghost entropy = self@.masters[own as int].entropy;
        assert(self@.masters[own as int] == self.masters@[own as int]@);
        let mut i: usize = 0;
        while i < self.accounts.len()
            invariant
                self@.wf(),
                i <= self.accounts@.len(),
                own < self.masters@.len(),
                entropy == self@.masters[own as int].entropy,
                self@.used_by_others(name@, entropy) ==> self@.phrase_use(name@) == Ok::<
                    RecoveryPhraseUse,
                    Error,
                >(RecoveryPhraseUse::Shared),
                forall|k: int|
                    0 <= k < i && (#[trigger] self@.accounts[k]).name != name@ ==> !derives_from(
                        self@.accounts[k],
                        self@.masters,
                        entropy,
                    ),
            decreases self.accounts@.len() - i,
        {
            let other = &self.accounts[i];
            proof {
                assert(self@.accounts[i as int] == other@);
                assert(account_wf(self@.accounts[i as int], self@.masters));
            }
            if !same(other.name.as_str(), name) {
                if let AccountKind::Derived { master, .. } = &other.kind {
                    let master: usize = *master as usize;
                    assert(self@.masters[master as int] == self.masters@[master as int]@);
                    assert(self@.masters[own as int] == self.masters@[own as int]@);
                    if same_bytes(
                        self.masters[master].entropy.as_slice(),
                        self.masters[own].entropy.as_slice(),
                    ) {
                        assert(derives_from(self@.accounts[i as int], self@.masters, entropy));
                        return Ok(RecoveryPhraseUse::Shared);
                    }
                }
            }
            i += 1;
        }
        Ok(RecoveryPhraseUse::UnusedAfterDeletion)
    }

    /// Drops the marked master entries, from the last to the first, and moves the references of
    /// the accounts along.
    fn erase_masters(
        &mut self,
        erase: &[bool; 32],
        Ghost(masters): Ghost<Seq<MasterView>>,
        Ghost(accounts): Ghost<Seq<AccountView>>,
        Ghost(erased): Ghost<Seq<u8>>,
    )
        requires
            old(self)@.masters == masters,
            old(self)@.accounts == accounts,
            masters.len() <= 32,
            forall|k: int|
                0 <= k < masters.len() ==> #[trigger] erase@[k] == (masters[k].entropy == erased),
            forall|i: int|
                0 <= i < accounts.len() ==> !derives_from(#[trigger] accounts[i], masters, erased)
                    && account_wf(accounts[i], masters),
        ensures
            final(self)@.masters == kept(masters, erased),
            final(self)@.accounts == accounts.map_values(
                |a: AccountView| remapped(a, masters, erased),
            ),
            final(self)@.recipients == old(self)@.recipients,
            final(self).source_bytes == old(self).source_bytes,
    {
        let mut index: usize = self.masters.len();
        proof {
            assert(masters.skip(index as int) =~= Seq::empty());
            assert(self@.masters =~= masters.take(index as int) + kept(
                masters.skip(index as int),
                erased,
            ));
            assert forall|i: int| 0 <= i < accounts.len() implies #[trigger] self@.accounts[i]
                == shifted(accounts[i], masters, erased, index as int) by {
                assert(account_wf(accounts[i], masters));
            }
        }
        while index > 0
            invariant
                index <= masters.len() <= 32,
                forall|k: int|
                    0 <= k < masters.len() ==> #[trigger] erase@[k] == (masters[k].entropy
                        == erased),
                forall|i: int|
                    0 <= i < accounts.len() ==> !derives_from(
                        #[trigger] accounts[i],
                        masters,
                        erased,
                    ) && account_wf(accounts[i], masters),
                self@.masters == masters.take(index as int) + kept(
                    masters.skip(index as int),
                    erased,
                ),
                self.accounts@.len() == accounts.len(),
                forall|i: int|
                    0 <= i < accounts.len() ==> #[trigger] self@.accounts[i] == shifted(
                        accounts[i],
                        masters,
                        erased,
                        index as int,
                    ),
                self.recipients == old(self).recipients,
                self.source_bytes == old(self).source_bytes,
            decreases index,
        {
            index -= 1;
            proof {
                let first = masters[index as int];
                assert(masters.skip(index as int) =~= seq![first] + masters.skip(index + 1));
                lemma_kept_first(first, masters.skip(index + 1), erased);
                assert forall|i: int| 0 <= i < accounts.len() implies #[trigger] shifted(
                    accounts[i],
                    masters,
                    erased,
                    index as int,
                ) == lowered(
                    shifted(accounts[i], masters, erased, index + 1),
                    index as int,
                    first.entropy == erased,
                ) by {
                    lemma_shift_step(accounts[i], masters, erased, index as int);
                }
            }
            if erase[index] {
                let ghost before = self@;
                assert(before.masters.len() == self.masters@.len());
                self.masters.remove(index);
                assert(self@.masters =~= before.masters.remove(index as int));
                assert(self@.masters =~= masters.take(index as int) + kept(
                    masters.skip(index as int),
                    erased,
                ));
                let mut j: usize = 0;
                while j < self.accounts.len()
                    invariant
                        j <= self.accounts@.len(),
                        index < masters.len() <= 32,
                        self.accounts@.len() == accounts.len() == before.accounts.len(),
                        forall|i: int|
                            0 <= i < j ==> #[trigger] self@.accounts[i] == lowered(
                                before.accounts[i],
                                index as int,
                                true,
                            ),
                        forall|i: int|
                            j <= i < self.accounts@.len() ==> #[trigger] self@.accounts[i]
                                == before.accounts[i],
                        self@.masters == masters.take(index as int) + kept(
                            masters.skip(index as int),
                            erased,
                        ),
                        self.recipients == old(self).recipients,
                        self.source_bytes == old(self).source_bytes,
                    decreases self.accounts@.len() - j,
                {
                    let ghost current = self@;
                    assert(self@.accounts[j as int] == self.accounts@[j as int]@);
                    if let AccountKind::Derived { master, .. } = &mut self.accounts[j].kind {
                        if *master as usize > index {
                            *master = *master - 1;
                        }
                    }
                    assert(self@.accounts =~= current.accounts.update(
                        j as int,
                        lowered(current.accounts[j as int], index as int, true),
                    ));
                    j += 1;
                }
            }
            assert forall|i: int| 0 <= i < accounts.len() implies #[trigger] self@.accounts[i]
                == shifted(accounts[i], masters, erased, index as int) by {
                assert(shifted(accounts[i], masters, erased, index as int) == lowered(
                    shifted(accounts[i], masters, erased, index + 1),
                    index as int,
                    masters[index as int].entropy == erased,
                ));
            }
            assert(self@.masters =~= masters.take(index as int) + kept(
                masters.skip(index as int),
                erased,
            ));
        }
        proof {
            assert(masters.skip(0) =~= masters);
            assert(self@.masters =~= kept(masters, erased));
            let expected = accounts.map_values(|a: AccountView| remapped(a, masters, erased));
            assert forall|i: int| 0 <= i < accounts.len() implies #[trigger] self@.accounts[i]
                == expected[i] by {
                if let KindView::Derived { master, .. } = accounts[i].kind {
                    assert(masters.subrange(0, master as int) =~= masters.take(master as int));
                }
            }
            assert(self@.accounts =~= expected);
        }
    }

    /// Removes an account and, if asked, the recovery phrase that no other account uses, with
    /// every copy of it. The accounts that are left keep their keys.
    pub fn remove_account(&mut self, name: &str, erase_phrase: bool) -> (result: Result<(), Error>)
        requires
            old(self)@.wf(),
        ensures
            final(self).source_bytes == old(self).source_bytes,
            match old(self)@.phrase_use(name@) {
                Err(error) => result == Err::<(), Error>(error) && final(self)@ == old(self)@,
                Ok(usage) => if erase_phrase && usage != RecoveryPhraseUse::UnusedAfterDeletion {
                    result == Err::<(), Error>(Error::PhraseInUse) && final(self)@ == old(self)@
                } else {
                    result is Ok && final(self)@ == old(self)@.without(name@, erase_phrase)
                },
            },
            final(self)@.wf(),
    {
        let usage = match self.recovery_phrase_use(name) {
            Ok(usage) => usage,
            Err(error) => return Err(error),
        };
        if erase_phrase && usage != RecoveryPhraseUse::UnusedAfterDeletion {
            return Err(Error::PhraseInUse);
        }
        let at: usize = match self.find(name) {
            Some(at) => at,
            None => return Err(Error::UnknownWallet),
        };
        proof {
            assert(self@.accounts[at as int] == self.accounts@[at as int]@);
            assert(account_wf(self@.accounts[at as int], self@.masters));
        }
        let mut erase: [bool; 32] = [false;32];
        let ghost mut erased: Seq<u8> = Seq::empty();
        if erase_phrase {
            if let AccountKind::Derived { master, .. } = &self.accounts[at].kind {
                let own: usize = *master as usize;
                proof {
                    erased = self@.masters[own as int].entropy;
                    assert(self@.masters[own as int] == self.masters@[own as int]@);
                }
                let mut i: usize = 0;
                while i < self.masters.len()
                    invariant
                        i <= self.masters@.len() <= 32,
                        own < self.masters@.len(),
                        erased == self.masters@[own as int].entropy@,
                        erase@.len() == 32,
                        forall|k: int|
                            0 <= k < i ==> #[trigger] erase@[k] == (self.masters@[k].entropy@
                                == erased),
                    decreases self.masters@.len() - i,
                {
                    erase[i] = same_bytes(
                        self.masters[i].entropy.as_slice(),
                        self.masters[own].entropy.as_slice(),
                    );
                    i += 1;
                }
            }
        }
        // The key is wiped in its place, before the account moves out of it.
        if let AccountKind::Imported { keypair } = &mut self.accounts[at].kind {
            keypair.wipe();
        }
        self.accounts.remove(at);
        let ghost start = old(self)@;
        let ghost rest = start.accounts.remove(at as int);
        assert(account_views(self.accounts@) =~= rest);
        proof {
            if !erase_phrase {
                lemma_remove_account_wf(start, at as int);
                assert(self@ == start.without(name@, false));
            } else {
                lemma_no_other_reference(start, name@, at as int, erased);
            }
        }
        if erase_phrase {
            self.erase_masters(&erase, Ghost(start.masters), Ghost(rest), Ghost(erased));
            proof {
                lemma_erase_wf(start, name@, at as int, erased);
                assert(self@.accounts =~= start.without(name@, true).accounts);
                assert(self@ == start.without(name@, true));
            }
        }
        Ok(())
    }
}

// ---------------------------------------------------------------------------------------------
// Laws
// ---------------------------------------------------------------------------------------------
/// In a vault without repeated names, an account is found under its name.
proof fn lemma_found(accounts: Seq<AccountView>, at: int)
    requires
        distinct_names(accounts),
        0 <= at < accounts.len(),
    ensures
        position(accounts, accounts[at].name) == Some(at),
{
    assert forall|k: int| 0 <= k < at implies (#[trigger] accounts[k]).name
        != accounts[at].name by {}
    lemma_position_is(accounts, accounts[at].name, at);
}

/// The deletion of an account, with or without its recovery phrase, changes nothing for another
/// account: it keeps its name, its address and its secret key.
pub proof fn deletion_keeps_other_accounts(
    vault: VaultView,
    name: Seq<char>,
    erase_phrase: bool,
    other: Seq<char>,
)
    requires
        vault.wf(),
        vault.account(name) is Some,
        erase_phrase ==> vault.phrase_use(name) == Ok::<RecoveryPhraseUse, Error>(
            RecoveryPhraseUse::UnusedAfterDeletion,
        ),
        other != name,
    ensures
        ({
            let after = vault.without(name, erase_phrase);
            &&& vault.account(other) is Some <==> after.account(other) is Some
            &&& vault.account(other) matches Some(a) ==> {
                let b = after.account(other)->Some_0;
                a.name == b.name && a.pubkey == b.pubkey && after.secret_of(b) == vault.secret_of(a)
            }
            &&& after.signing_secret(other) == vault.signing_secret(other)
        }),
{
    let after = vault.without(name, erase_phrase);
    lemma_position(vault.accounts, name);
    lemma_position(vault.accounts, other);
    lemma_position(after.accounts, other);
    let at = position(vault.accounts, name)->Some_0;
    let rest = vault.accounts.remove(at);
    let erased = vault.masters[vault.accounts[at].kind->master as int].entropy;
    lemma_remove_account_wf(vault, at);
    assert(account_wf(vault.accounts[at], vault.masters));
    if erase_phrase {
        lemma_erase_wf(vault, name, at, erased);
        lemma_no_other_reference(vault, name, at, erased);
    }
    assert forall|i: int| 0 <= i < rest.len() implies (#[trigger] rest[i]).name
        == after.accounts[i].name by {}
    match position(vault.accounts, other) {
        Some(i) => {
            let j = if i < at { i } else { i - 1 };
            assert(rest[j] == vault.accounts[i]);
            assert(after.accounts[j].name == other);
            lemma_found(after.accounts, j);
            assert(account_wf(rest[j], vault.masters));
            if erase_phrase {
                assert(after.accounts[j] == remapped(rest[j], vault.masters, erased));
                if let KindView::Derived { master, .. } = rest[j].kind {
                    lemma_kept_at(vault.masters, erased, master as int);
                }
            }
        },
        None => {
            if let Some(j) = position(after.accounts, other) {
                assert(rest[j].name == other);
                assert(rest[j] == if j < at {
                    vault.accounts[j]
                } else {
                    vault.accounts[j + 1]
                });
            }
        },
    }
}

/// A deleted account is gone.
pub proof fn deleted_account_is_gone(vault: VaultView, name: Seq<char>, erase_phrase: bool)
    requires
        vault.wf(),
        vault.account(name) is Some,
    ensures
        vault.without(name, erase_phrase).account(name) is None,
{
    let after = vault.without(name, erase_phrase);
    lemma_position(vault.accounts, name);
    lemma_position(after.accounts, name);
    let at = position(vault.accounts, name)->Some_0;
    let rest = vault.accounts.remove(at);
    if let Some(j) = position(after.accounts, name) {
        assert(after.accounts[j].name == rest[j].name);
        let i = if j < at { j } else { j + 1 };
        assert(rest[j] == vault.accounts[i]);
        assert(vault.accounts[i].name != vault.accounts[at].name);
    }
}

/// An erased recovery phrase leaves no copy behind, and no other phrase goes with it.
pub proof fn erased_phrase_is_gone(vault: VaultView, name: Seq<char>, entropy: Seq<u8>)
    requires
        vault.wf(),
        vault.account(name) matches Some(a) && a.kind is Derived,
    ensures
        ({
            let own = vault.masters[vault.account(name)->Some_0.kind->master as int].entropy;
            let has = |masters: Seq<MasterView>|
                exists|i: int| 0 <= i < masters.len() && (#[trigger] masters[i]).entropy == entropy;
            has(vault.without(name, true).masters) <==> has(vault.masters) && entropy != own
        }),
{
    let own = vault.masters[vault.account(name)->Some_0.kind->master as int].entropy;
    let after = vault.without(name, true).masters;
    lemma_kept_entries(vault.masters, own);
    if exists|i: int| 0 <= i < after.len() && (#[trigger] after[i]).entropy == entropy {
        let i = choose|i: int| 0 <= i < after.len() && (#[trigger] after[i]).entropy == entropy;
        assert(vault.masters.contains(after[i]));
        let k = choose|k: int| 0 <= k < vault.masters.len() && vault.masters[k] == after[i];
        assert(vault.masters[k].entropy == entropy);
    }
    if entropy != own && exists|i: int|
        0 <= i < vault.masters.len() && (#[trigger] vault.masters[i]).entropy == entropy {
        let i = choose|i: int|
            0 <= i < vault.masters.len() && (#[trigger] vault.masters[i]).entropy == entropy;
        lemma_kept_at(vault.masters, own, i);
        assert(after[kept(vault.masters.take(i), own).len() as int].entropy == entropy);
    }
}

/// A derived account gets an index that no account of its phrase has, and the deletion of accounts
/// never brings an index back.
pub proof fn derived_indices_are_never_reused(
    vault: VaultView,
    deleted: Seq<char>,
    name: Seq<char>,
)
    requires
        vault.wf(),
        vault.masters.len() > 0,
        vault.account(deleted) is Some,
    ensures
        ({
            let added = vault.without(deleted, false).with_derived(name).accounts.last();
            &&& added.kind == vault.with_derived(name).accounts.last().kind
            &&& forall|i: int|
                0 <= i < vault.accounts.len() ==> (#[trigger] vault.accounts[i]).kind != added.kind
        }),
{
    let added = vault.without(deleted, false).with_derived(name).accounts.last();
    assert forall|i: int| 0 <= i < vault.accounts.len() implies (
    #[trigger] vault.accounts[i]).kind != added.kind by {
        assert(account_wf(vault.accounts[i], vault.masters));
    }
}

/// No operation takes the counter of a phrase back: as long as a phrase is in the vault, its counter
/// stays or grows, so an index that was used once is never used again.
pub proof fn counters_never_go_back(
    vault: VaultView,
    name: Seq<char>,
    entropy: Seq<u8>,
    keypair: Seq<u8>,
    i: int,
)
    requires
        vault.wf(),
        0 <= i < vault.masters.len(),
    ensures
        vault.with_master(name, entropy).masters[i] == vault.masters[i],
        vault.with_imported(name, keypair).masters[i] == vault.masters[i],
        vault.masters[0].next_index < INDEX_LIMIT ==> {
            let after = vault.with_derived(name).masters[i];
            &&& after.entropy == vault.masters[i].entropy
            &&& after.next_index >= vault.masters[i].next_index
            &&& i == 0 ==> after.next_index > vault.masters[i].next_index
        },
        vault.without(name, false).masters[i] == vault.masters[i],
        vault.account(name) matches Some(a) && (a.kind matches KindView::Derived { master, .. }
            && vault.masters[master as int].entropy != vault.masters[i].entropy)
            ==> vault.without(name, true).masters.contains(vault.masters[i]),
{
    if let Some(a) = vault.account(name) {
        if let KindView::Derived { master, .. } = a.kind {
            let own = vault.masters[master as int].entropy;
            if own != vault.masters[i].entropy {
                lemma_kept_at(vault.masters, own, i);
                let at = kept(vault.masters.take(i), own).len() as int;
                assert(vault.without(name, true).masters[at] == vault.masters[i]);
            }
        }
    }
}

/// Where the first wallet is deleted, the next one becomes the first.
pub proof fn next_wallet_becomes_the_first(vault: VaultView, erase_phrase: bool)
    requires
        vault.accounts.len() > 1,
        distinct_names(vault.accounts),
    ensures
        ({
            let first = vault.accounts[0].name;
            let after = vault.without(first, erase_phrase);
            after.accounts[0].name == vault.accounts[1].name && after.accounts.len() + 1
                == vault.accounts.len()
        }),
{
    lemma_found(vault.accounts, 0);
    assert(vault.accounts.remove(0)[0] == vault.accounts[1]);
}

/// A new account can sign: its secret key belongs to its address.
pub proof fn new_accounts_can_sign(
    vault: VaultView,
    name: Seq<char>,
    entropy: Seq<u8>,
    secret: Seq<u8>,
)
    requires
        vault.wf(),
        vault.name_refused(name) is None,
        entropy_length(entropy.len()),
        secret.len() == 32,
        ed25519_public_key(secret).len() == 32,
    ensures
        vault.masters.len() < MAX_MASTERS ==> vault.with_master(name, entropy).signing_secret(name)
            == Ok::<Seq<u8>, Error>(derived_secret(entropy, 0)),
        vault.masters.len() > 0 && vault.masters[0].next_index < INDEX_LIMIT ==> vault.with_derived(
            name,
        ).signing_secret(name) == Ok::<Seq<u8>, Error>(
            derived_secret(vault.masters[0].entropy, vault.masters[0].next_index),
        ),
        vault.with_imported(name, secret + ed25519_public_key(secret)).signing_secret(name) == Ok::<
            Seq<u8>,
            Error,
        >(secret),
{
    let at = vault.accounts.len() as int;
    lemma_position(vault.accounts, name);
    let a = vault.with_master(name, entropy);
    assert forall|k: int| 0 <= k < at implies (#[trigger] a.accounts[k]).name != name by {
        assert(a.accounts[k] == vault.accounts[k]);
    }
    lemma_position_is(a.accounts, name, at);
    if vault.masters.len() > 0 {
        assert(master_wf(vault.masters[0]));
        let b = vault.with_derived(name);
        assert forall|k: int| 0 <= k < at implies (#[trigger] b.accounts[k]).name != name by {
            assert(b.accounts[k] == vault.accounts[k]);
        }
        lemma_position_is(b.accounts, name, at);
    }
    let keypair = secret + ed25519_public_key(secret);
    keypair_round_trip(secret);
    assert(keypair.subrange(32, 64) =~= ed25519_public_key(secret));
    let c = vault.with_imported(name, keypair);
    assert forall|k: int| 0 <= k < at implies (#[trigger] c.accounts[k]).name != name by {
        assert(c.accounts[k] == vault.accounts[k]);
    }
    lemma_position_is(c.accounts, name, at);
}

/// The account with a name is the one that has it; where none has it, there is none.
pub proof fn accounts_are_found_by_name(vault: VaultView, name: Seq<char>)
    ensures
        vault.account(name) matches Some(a) ==> a.name == name && vault.accounts.contains(a),
        vault.account(name) is None ==> forall|i: int|
            0 <= i < vault.accounts.len() ==> (#[trigger] vault.accounts[i]).name != name,
{
    lemma_position(vault.accounts, name);
    if let Some(i) = position(vault.accounts, name) {
        assert(vault.accounts[i] == vault.account(name)->Some_0);
    }
}

/// A new account can have every name that is one and is free, as long as there is room.
pub proof fn free_names_are_accepted(vault: VaultView, name: Seq<char>)
    ensures
        (vault.name_refused(name) is None) == (is_name(name) && vault.accounts.len() < 128
            && forall|i: int|
            0 <= i < vault.accounts.len() ==> (#[trigger] vault.accounts[i]).name != name),
{
    lemma_position(vault.accounts, name);
}

/// A new account takes the last place, under its name, and changes nothing else: the other accounts,
/// the phrases and the recipients stay, but for the counter of the phrase that it is derived from.
pub proof fn new_accounts_change_nothing_else(
    vault: VaultView,
    name: Seq<char>,
    entropy: Seq<u8>,
    keypair: Seq<u8>,
)
    requires
        vault.masters.len() <= 255,
    ensures
        ({
            let a = vault.with_master(name, entropy);
            let b = vault.with_derived(name);
            let c = vault.with_imported(name, keypair);
            &&& a.accounts.drop_last() == vault.accounts && a.accounts.last().name == name
            &&& a.masters.drop_last() == vault.masters && a.masters.last().entropy == entropy
                && a.masters.last().next_index == 1
            &&& a.accounts.last().kind == (KindView::Derived {
                master: vault.masters.len() as u8,
                index: 0,
            })
            &&& a.recipients == vault.recipients
            &&& b.accounts.drop_last() == vault.accounts && b.accounts.last().name == name
            &&& b.recipients == vault.recipients
            &&& vault.masters.len() > 0 ==> b.masters.len() == vault.masters.len()
            &&& forall|i: int|
                0 < i < vault.masters.len() ==> #[trigger] b.masters[i] == vault.masters[i]
            &&& vault.masters.len() > 0 && vault.masters[0].next_index < INDEX_LIMIT ==> {
                &&& b.masters[0].entropy == vault.masters[0].entropy
                &&& b.masters[0].next_index == vault.masters[0].next_index + 1
                &&& b.accounts.last().kind == (KindView::Derived {
                    master: 0,
                    index: vault.masters[0].next_index,
                })
                &&& b.accounts.last().pubkey == ed25519_public_key(
                    derived_secret(vault.masters[0].entropy, vault.masters[0].next_index),
                )
            }
            &&& c.accounts.drop_last() == vault.accounts && c.accounts.last().name == name
            &&& c.masters == vault.masters
            &&& c.recipients == vault.recipients
            &&& c.accounts.last().kind == (KindView::Imported { keypair })
            &&& keypair.len() == 64 ==> c.accounts.last().pubkey == keypair.skip(32)
        }),
{
    let a = vault.with_master(name, entropy);
    assert(a.accounts.drop_last() =~= vault.accounts);
    assert(a.masters.drop_last() =~= vault.masters);
    let b = vault.with_derived(name);
    assert(b.accounts.drop_last() =~= vault.accounts);
    let c = vault.with_imported(name, keypair);
    assert(c.accounts.drop_last() =~= vault.accounts);
    if keypair.len() == 64 {
        assert(keypair.subrange(32, 64) =~= keypair.skip(32));
    }
}

/// An account signs only with the key of its own address: the secret half of an imported keypair,
/// or the key at its index under its own phrase.
pub proof fn accounts_sign_with_their_own_key(vault: VaultView, name: Seq<char>)
    ensures
        vault.signing_secret(name) matches Ok(secret) ==> {
            &&& vault.account(name) is Some
            &&& ed25519_public_key(secret) == vault.account(name)->Some_0.pubkey
            &&& match vault.account(name)->Some_0.kind {
                KindView::Imported { keypair } => keypair.len() == 64 && secret == keypair.take(32),
                KindView::Derived { master, index } => master < vault.masters.len() && secret
                    == derived_secret(vault.masters[master as int].entropy, index),
            }
        },
{
    if let Some(account) = vault.account(name) {
        if let KindView::Imported { keypair } = account.kind {
            if keypair.len() == 64 {
                assert(keypair.subrange(0, 32) =~= keypair.take(32));
            }
        }
    }
}

/// What depends on a phrase: an imported key has none; a phrase is shared if and only if another
/// account has its key from a master entry with the same entropy.
pub proof fn phrases_are_shared_by_entropy(vault: VaultView, name: Seq<char>)
    requires
        vault.account(name) is Some,
    ensures
        ({
            let kind = vault.account(name)->Some_0.kind;
            &&& kind is Imported ==> vault.phrase_use(name) == Ok::<RecoveryPhraseUse, Error>(
                RecoveryPhraseUse::ImportedKey,
            )
            &&& kind is Derived ==> vault.phrase_use(name) == Ok::<RecoveryPhraseUse, Error>(
                if exists|i: int|
                    0 <= i < vault.accounts.len() && {
                        let other = #[trigger] vault.accounts[i];
                        other.name != name && other.kind is Derived
                            && vault.masters[other.kind->Derived_master as int].entropy
                            == vault.masters[kind->Derived_master as int].entropy
                    } {
                    RecoveryPhraseUse::Shared
                } else {
                    RecoveryPhraseUse::UnusedAfterDeletion
                },
            )
        }),
{
    let kind = vault.account(name)->Some_0.kind;
    if kind is Derived {
        let own = vault.masters[kind->Derived_master as int].entropy;
        if vault.used_by_others(name, own) {
            let i = choose|i: int|
                0 <= i < vault.accounts.len() && (#[trigger] vault.accounts[i]).name != name
                    && derives_from(vault.accounts[i], vault.masters, own);
            assert(vault.accounts[i].kind is Derived);
        }
        if exists|i: int|
            0 <= i < vault.accounts.len() && {
                let other = #[trigger] vault.accounts[i];
                other.name != name && other.kind is Derived
                    && vault.masters[other.kind->Derived_master as int].entropy == own
            } {
            let i = choose|i: int|
                0 <= i < vault.accounts.len() && {
                    let other = #[trigger] vault.accounts[i];
                    other.name != name && other.kind is Derived
                        && vault.masters[other.kind->Derived_master as int].entropy == own
                };
            assert(derives_from(vault.accounts[i], vault.masters, own));
        }
    }
}

/// Deleting an account leaves the recipients as they are and, unless its phrase is erased, the
/// phrases too; the other accounts keep their order.
pub proof fn deletion_changes_nothing_else(vault: VaultView, name: Seq<char>, erase_phrase: bool)
    requires
        vault.account(name) is Some,
    ensures
        ({
            let after = vault.without(name, erase_phrase);
            let at = position(vault.accounts, name)->Some_0;
            &&& vault.accounts[at].name == name
            &&& after.recipients == vault.recipients
            &&& !erase_phrase ==> after.masters == vault.masters
            &&& after.accounts.len() + 1 == vault.accounts.len()
            &&& forall|i: int|
                0 <= i < after.accounts.len() ==> {
                    let before = vault.accounts[if i < at {
                        i
                    } else {
                        i + 1
                    }];
                    &&& (#[trigger] after.accounts[i]).name == before.name
                    &&& after.accounts[i].pubkey == before.pubkey
                    &&& !erase_phrase ==> after.accounts[i] == before
                }
        }),
{
    lemma_position(vault.accounts, name);
}

/// A wallet with a phrase of its own signs with the first key of that phrase, and is found by its
/// name.
pub proof fn a_phrase_restores_its_first_wallet(
    vault: VaultView,
    name: Seq<char>,
    entropy: Seq<u8>,
)
    requires
        vault.wf(),
        vault.name_refused(name) is None,
        vault.masters.len() < MAX_MASTERS,
        entropy_length(entropy.len()),
    ensures
        ({
            let after = vault.with_master(name, entropy);
            &&& after.signing_secret(name) == Ok::<Seq<u8>, Error>(derived_secret(entropy, 0))
            &&& after.account(name) is Some
            &&& after.account(name)->Some_0.pubkey == ed25519_public_key(
                derived_secret(entropy, 0),
            )
            &&& after.account(name)->Some_0.kind is Derived
            &&& after.account(name)->Some_0.kind->Derived_index == 0
        }),
{
    let at = vault.accounts.len() as int;
    lemma_position(vault.accounts, name);
    let after = vault.with_master(name, entropy);
    assert forall|k: int| 0 <= k < at implies (#[trigger] after.accounts[k]).name != name by {
        assert(after.accounts[k] == vault.accounts[k]);
    }
    lemma_position_is(after.accounts, name, at);
}

/// A wallet that is imported as a keypair signs with its secret half, has its public half as its
/// address, and is found by its name.
pub proof fn an_imported_keypair_is_the_wallet(
    vault: VaultView,
    name: Seq<char>,
    keypair: Seq<u8>,
)
    requires
        vault.name_refused(name) is None,
        keypair.len() == 64,
        keypair.skip(32) == ed25519_public_key(keypair.take(32)),
    ensures
        ({
            let after = vault.with_imported(name, keypair);
            &&& after.signing_secret(name) == Ok::<Seq<u8>, Error>(keypair.take(32))
            &&& after.account(name) is Some
            &&& after.account(name)->Some_0.pubkey == keypair.skip(32)
        }),
{
    let at = vault.accounts.len() as int;
    lemma_position(vault.accounts, name);
    let after = vault.with_imported(name, keypair);
    assert forall|k: int| 0 <= k < at implies (#[trigger] after.accounts[k]).name != name by {
        assert(after.accounts[k] == vault.accounts[k]);
    }
    lemma_position_is(after.accounts, name, at);
    assert(keypair.subrange(32, 64) =~= keypair.skip(32));
    assert(keypair.subrange(0, 32) =~= keypair.take(32));
}

} // verus!
