//! Recovery phrases and the keys that are derived from them.
use vstd::prelude::*;
use vstd::string::*;
use vstd::utf8::*;

use crate::error::Error;
use crate::random::random_array;
use crate::secret::{SecretArray, SecretBytes, SecretText};
use crate::signer::Keypair;

verus! {

// ---------------------------------------------------------------------------------------------
// What the outside crates compute
// ---------------------------------------------------------------------------------------------
/// The English words of the recovery phrase for some entropy.
pub uninterp spec fn mnemonic_words(entropy: Seq<u8>) -> Seq<Seq<char>>;

/// The seed of the recovery phrase for some entropy, without a passphrase.
pub uninterp spec fn mnemonic_seed(entropy: Seq<u8>) -> Seq<u8>;

/// The entropy of a recovery phrase, or what is wrong with the phrase.
pub uninterp spec fn mnemonic_entropy(phrase: Seq<char>) -> Result<Seq<u8>, Seq<char>>;

/// The root key and chain code for a seed.
pub uninterp spec fn root_key(seed: Seq<u8>) -> (Seq<u8>, Seq<u8>);

/// The key and chain code of a hardened child.
pub uninterp spec fn hardened_child(key: Seq<u8>, chain_code: Seq<u8>, index: u32) -> (
    Seq<u8>,
    Seq<u8>,
);

/// How many bytes the entropy of a recovery phrase can have.
pub open spec fn entropy_length(n: nat) -> bool {
    16 <= n <= 32 && n % 4 == 0
}

/// A word of the list: three to eight lower-case ASCII letters.
pub open spec fn listed_word(word: Seq<char>) -> bool {
    3 <= word.len() <= 8 && forall|i: int| 0 <= i < word.len() ==> 'a' <= #[trigger] word[i] <= 'z'
}

/// Texts joined by single spaces.
pub open spec fn joined(words: Seq<Seq<char>>) -> Seq<char>
    decreases words.len(),
{
    if words.len() == 0 {
        Seq::empty()
    } else if words.len() == 1 {
        words[0]
    } else {
        joined(words.drop_last()) + seq![' '] + words.last()
    }
}

/// The views of some texts.
pub open spec fn texts(words: Seq<&str>) -> Seq<Seq<char>> {
    words.map_values(|w: &str| w@)
}

/// Calls `Mnemonic::from_entropy` and `Mnemonic::words` of `bip39`: 16, 20, 24, 28 or 32 bytes
/// give three words for every four bytes, all from the English list, and reading the phrase gives
/// the entropy back. Which words they are is only named.
#[verifier::external_body]
fn words_of_entropy(entropy: &[u8]) -> (words: Option<Vec<&'static str>>)
    requires
        entropy@.len() <= 32,
    ensures
        words is Some <==> entropy_length(entropy@.len()),
        words matches Some(w) ==> texts(w@) == mnemonic_words(entropy@),
        words matches Some(w) ==> 4 * w@.len() == 3 * entropy@.len(),
        words matches Some(w) ==> forall|i: int| 0 <= i < w@.len() ==> listed_word(#[trigger] w@[i]@),
        words matches Some(w) ==> mnemonic_entropy(joined(texts(w@))) is Ok,
        words matches Some(w) ==> mnemonic_entropy(joined(texts(w@)))->Ok_0 == entropy@,
{
    match bip39::Mnemonic::from_entropy(entropy) {
        Ok(mnemonic) => Some(mnemonic.words().collect()),
        Err(_) => None,
    }
}

/// Calls `Mnemonic::to_seed` of `bip39` with the empty passphrase. The seed is only named.
#[verifier::external_body]
fn seed_of_entropy(entropy: &[u8]) -> (seed: [u8; 64])
    requires
        entropy_length(entropy@.len()),
    ensures
        seed@ == mnemonic_seed(entropy@),
{
    bip39::Mnemonic::from_entropy(entropy).unwrap().to_seed("")
}

/// Calls `Mnemonic::parse` and `Mnemonic::to_entropy` of `bip39`, which read 12, 15, 18, 21 or 24
/// words and check the checksum. What they give for a phrase, and the message of the error, is
/// only named.
#[verifier::external_body]
fn entropy_of_phrase(phrase: &str) -> (entropy: Result<Vec<u8>, String>)
    ensures
        match entropy {
            Ok(e) => mnemonic_entropy(phrase@) == Ok::<Seq<u8>, Seq<char>>(e@),
            Err(m) => mnemonic_entropy(phrase@) == Err::<Seq<u8>, Seq<char>>(m@),
        },
        entropy matches Ok(e) ==> entropy_length(e@.len()),
{
    match bip39::Mnemonic::parse(phrase) {
        Ok(mnemonic) => Ok(mnemonic.to_entropy()),
        Err(error) => Err(error.to_string()),
    }
}

/// Calls `ExtendedSigningKey::from_seed` of `ed25519_dalek_bip32`, which never fails. The key and
/// the chain code are only named.
#[verifier::external_body]
fn root_of_seed(seed: &[u8; 64]) -> (node: ([u8; 32], [u8; 32]))
    ensures
        (node.0@, node.1@) == root_key(seed@),
{
    let root = ed25519_dalek_bip32::ExtendedSigningKey::from_seed(&seed[..]).unwrap();
    (root.signing_key.to_bytes(), root.chain_code)
}

/// Calls `ExtendedSigningKey::derive_child` of `ed25519_dalek_bip32` with a hardened index, which
/// then never fails. The child depends on the parent's key and chain code and on the index alone;
/// it is only named.
#[verifier::external_body]
fn child_of(key: &[u8; 32], chain_code: &[u8; 32], index: u32) -> (node: ([u8; 32], [u8; 32]))
    requires
        index < 0x8000_0000,
    ensures
        (node.0@, node.1@) == hardened_child(key@, chain_code@, index),
{
    let parent = ed25519_dalek_bip32::ExtendedSigningKey {
        depth: 0,
        child_index: ed25519_dalek_bip32::ChildIndex::Normal(0),
        signing_key: ed25519_dalek::SigningKey::from_bytes(key),
        chain_code: *chain_code,
    };
    let child = parent.derive_child(ed25519_dalek_bip32::ChildIndex::Hardened(index)).unwrap();
    (child.signing_key.to_bytes(), child.chain_code)
}

// ---------------------------------------------------------------------------------------------
// Recovery phrases
// ---------------------------------------------------------------------------------------------
/// The recovery phrase for some entropy.
pub open spec fn phrase_text(entropy: Seq<u8>) -> Seq<char> {
    joined(mnemonic_words(entropy))
}

/// A recovery phrase: its entropy and its words.
pub struct Mnemonic {
    entropy: SecretBytes,
    words: Vec<&'static str>,
}

impl View for Mnemonic {
    type V = Seq<u8>;

    /// The entropy.
    closed spec fn view(&self) -> Seq<u8> {
        self.entropy@
    }
}

impl Mnemonic {
    /// The entropy makes a phrase, and the words are those of the phrase.
    pub closed spec fn wf(&self) -> bool {
        &&& entropy_length(self.entropy@.len())
        &&& texts(self.words@) == mnemonic_words(self.entropy@)
        &&& 4 * self.words@.len() == 3 * self.entropy@.len()
        &&& forall|i: int| 0 <= i < self.words@.len() ==> listed_word(#[trigger] self.words@[i]@)
        &&& mnemonic_entropy(joined(texts(self.words@))) is Ok
        &&& mnemonic_entropy(joined(texts(self.words@)))->Ok_0 == self.entropy@
    }

    /// The phrase for some entropy.
    pub fn from_entropy(entropy: &[u8]) -> (mnemonic: Result<Mnemonic, Error>)
        ensures
            match mnemonic {
                Ok(m) => entropy_length(entropy@.len()) && m.wf() && m@ == entropy@,
                Err(e) => !entropy_length(entropy@.len()) && e == Error::EntropyLength(
                    entropy@.len() as usize,
                ),
            },
    {
        if entropy.len() > 32 {
            return Err(Error::EntropyLength(entropy.len()));
        }
        match words_of_entropy(entropy) {
            Some(words) => Ok(Mnemonic { entropy: SecretBytes::copy_of(entropy), words }),
            None => Err(Error::EntropyLength(entropy.len())),
        }
    }

    /// Reads a phrase.
    pub fn parse(phrase: &str) -> (mnemonic: Result<Mnemonic, Error>)
        ensures
            match mnemonic_entropy(phrase@) {
                Ok(entropy) => mnemonic matches Ok(m) && m.wf() && m@ == entropy && entropy_length(
                    entropy.len(),
                ),
                Err(message) => mnemonic matches Err(Error::Outside(e)) && e@ == message,
            },
    {
        match entropy_of_phrase(phrase) {
            Ok(entropy) => {
                let entropy = SecretBytes::new(entropy);
                Mnemonic::from_entropy(entropy.as_slice())
            },
            Err(message) => Err(Error::Outside(message)),
        }
    }

    /// The entropy of the phrase.
    pub fn to_entropy(&self) -> (entropy: SecretBytes)
        ensures
            entropy@ == self@,
    {
        SecretBytes::copy_of(self.entropy.as_slice())
    }

    /// The words of the phrase, joined by single spaces, in a buffer that never grows.
    pub fn phrase(&self) -> (text: SecretText)
        requires
            self.wf(),
        ensures
            text@ == phrase_text(self@),
            mnemonic_entropy(text@) is Ok,
            mnemonic_entropy(text@)->Ok_0 == self@,
    {
        let mut len: usize = 0;
        let mut i: usize = 0;
        while i < self.words.len()
            invariant
                self.wf(),
                i <= self.words.len() <= 24,
                len <= 9 * i,
            decreases self.words.len() - i,
        {
            let word = self.words[i];
            assert(listed_word(self.words@[i as int]@));
            proof {
                lemma_listed_word_bytes(word@);
            }
            len = len + word.as_bytes().len() + 1;
            i += 1;
        }
        let capacity: usize = if len > 0 { len - 1 } else { 0 };
        let mut text = String::with_capacity(capacity);
        let mut i: usize = 0;
        while i < self.words.len()
            invariant
                self.wf(),
                i <= self.words.len(),
                text@ == joined(texts(self.words@).take(i as int)),
                i > 0 ==> text@.len() > 0,
                i == 0 ==> text@.len() == 0,
            decreases self.words.len() - i,
        {
            let ghost before = text@;
            let word = self.words[i];
            proof {
                let all = texts(self.words@);
                assert(listed_word(self.words@[i as int]@));
                assert(all.take(i + 1).drop_last() =~= all.take(i as int));
                assert(all.take(i + 1).last() == word@);
                assert(i == 0 ==> all.take(1)[0] == word@);
            }
            if i > 0 {
                text.push(' ');
            }
            text.append(word);
            assert(i > 0 ==> text@ =~= before + seq![' '] + word@);
            assert(i == 0 ==> text@ =~= word@);
            i += 1;
        }
        assert(texts(self.words@).take(i as int) =~= texts(self.words@));
        SecretText::new(text)
    }
}

proof fn lemma_listed_word_bytes(word: Seq<char>)
    requires
        listed_word(word),
    ensures
        encode_utf8(word).len() == word.len(),
{
    assert(is_ascii_chars(word)) by {
        assert forall|i: int| 0 <= i < word.len() implies #[trigger] (word[i] as u32) < 128 by {
            assert('a' <= word[i] <= 'z');
        }
    }
    is_ascii_chars_encode_utf8(word);
}

/// Fresh entropy for a phrase of 24 words.
pub fn fresh_entropy() -> (entropy: Result<SecretBytes, Error>)
    ensures
        match entropy {
            Ok(e) => e@.len() == 32,
            Err(e) => e == Error::NoRandomness,
        },
{
    match random_array::<32>() {
        Some(bytes) => {
            let bytes = SecretArray::new(bytes);
            Ok(SecretBytes::copy_of(bytes.as_array()))
        },
        None => Err(Error::NoRandomness),
    }
}

/// The recovery phrase for some entropy.
pub fn phrase(entropy: &[u8]) -> (text: Result<SecretText, Error>)
    ensures
        match text {
            Ok(t) => entropy_length(entropy@.len()) && t@ == phrase_text(entropy@)
                && mnemonic_entropy(t@) is Ok && mnemonic_entropy(t@)->Ok_0 == entropy@,
            Err(e) => !entropy_length(entropy@.len()) && e == Error::EntropyLength(
                entropy@.len() as usize,
            ),
        },
{
    match Mnemonic::from_entropy(entropy) {
        Ok(mnemonic) => Ok(mnemonic.phrase()),
        Err(error) => Err(error),
    }
}

// ---------------------------------------------------------------------------------------------
// Derived keys
// ---------------------------------------------------------------------------------------------
/// The key and chain code at the end of a path of hardened children.
pub open spec fn node_at(root: (Seq<u8>, Seq<u8>), path: Seq<u32>) -> (Seq<u8>, Seq<u8>)
    decreases path.len(),
{
    if path.len() == 0 {
        root
    } else {
        let parent = node_at(root, path.drop_last());
        hardened_child(parent.0, parent.1, path.last())
    }
}

/// The path of an account: `m/44'/501'/index'/0'`.
pub open spec fn account_path(index: u32) -> Seq<u32> {
    seq![44u32, 501u32, index, 0u32]
}

/// The secret key of the account with an index under some entropy.
pub open spec fn derived_secret(entropy: Seq<u8>, index: u32) -> Seq<u8> {
    node_at(root_key(mnemonic_seed(entropy)), account_path(index)).0
}

/// The first index that is too large for a hardened child.
pub const INDEX_LIMIT: u32 = 0x8000_0000;

/// The keypair of the account with an index under a recovery phrase.
pub fn derive_signer(mnemonic: &Mnemonic, index: u32) -> (keypair: Result<Keypair, Error>)
    requires
        mnemonic.wf(),
    ensures
        match keypair {
            Ok(k) => index < INDEX_LIMIT && k@ == derived_secret(mnemonic@, index),
            Err(e) => index >= INDEX_LIMIT && e == Error::IndexTooLarge,
        },
{
    if index >= INDEX_LIMIT {
        return Err(Error::IndexTooLarge);
    }
    let seed = SecretArray::new(seed_of_entropy(mnemonic.entropy.as_slice()));
    let root = root_of_seed(seed.as_array());
    let mut key = SecretArray::new(root.0);
    let mut chain_code = SecretArray::new(root.1);
    let path: [u32; 4] = [44, 501, index, 0];
    let ghost start = root_key(mnemonic_seed(mnemonic@));
    assert(path@ =~= account_path(index));
    assert(path@.take(0) =~= Seq::<u32>::empty());
    let mut i: usize = 0;
    while i < 4
        invariant
            i <= 4,
            path@ == account_path(index),
            index < INDEX_LIMIT,
            (key@, chain_code@) == node_at(start, path@.take(i as int)),
        decreases 4 - i,
    {
        let child = child_of(key.as_array(), chain_code.as_array(), path[i]);
        proof {
            assert(path@.take(i + 1).drop_last() =~= path@.take(i as int));
            assert(path@.take(i + 1).last() == path@[i as int]);
        }
        key = SecretArray::new(child.0);
        chain_code = SecretArray::new(child.1);
        i += 1;
    }
    assert(path@.take(4) =~= path@);
    Ok(Keypair::new_from_array(*key.as_array()))
}

/// The key of an account lies on the path `m/44'/501'/index'/0'` below the phrase, and on no other.
pub proof fn accounts_lie_on_their_path(entropy: Seq<u8>, index: u32)
    ensures
        ({
            let root = root_key(mnemonic_seed(entropy));
            let a = hardened_child(root.0, root.1, 44);
            let b = hardened_child(a.0, a.1, 501);
            let c = hardened_child(b.0, b.1, index);
            let d = hardened_child(c.0, c.1, 0);
            derived_secret(entropy, index) == d.0
        }),
{
    let path = account_path(index);
    let root = root_key(mnemonic_seed(entropy));
    reveal_with_fuel(node_at, 5);
    let p3 = path.drop_last();
    let p2 = p3.drop_last();
    let p1 = p2.drop_last();
    assert(path.last() == 0 && p3.last() == index && p2.last() == 501 && p1.last() == 44);
    assert(p1.drop_last().len() == 0);
}

/// A phrase is its words with one space between them.
pub proof fn phrases_are_words_and_spaces(words: Seq<Seq<char>>, word: Seq<char>)
    ensures
        joined(seq![word]) == word,
        words.len() > 0 ==> joined(words.push(word)) == joined(words) + seq![' '] + word,
{
    assert(words.push(word).drop_last() =~= words);
}

} // verus!
