//! Arguments of commands.
use vstd::prelude::*;
use vstd::string::*;

use crate::error::Error;
use crate::text::{has_prefix, same, starts_with, string_views, strip_prefix};

verus! {

// ---------------------------------------------------------------------------------------------
// Options
// ---------------------------------------------------------------------------------------------
/// One of some options has a name.
pub open spec fn has_option(values: Seq<(Seq<char>, Seq<char>)>, name: Seq<char>) -> bool {
    exists|i: int| 0 <= i < values.len() && (#[trigger] values[i]).0 == name
}

/// The options in some arguments, after those that were found before: pairs of `--name` and a
/// value, with allowed names, each at most once.
pub open spec fn options_in(
    args: Seq<Seq<char>>,
    allowed: Seq<Seq<char>>,
    found: Seq<(Seq<char>, Seq<char>)>,
) -> Result<Seq<(Seq<char>, Seq<char>)>, Error>
    decreases args.len(),
{
    if args.len() == 0 {
        Ok(found)
    } else if !has_prefix(args[0], "--"@) {
        Err(Error::OptionExpected)
    } else {
        let name = args[0].skip("--"@.len() as int);
        if !allowed.contains(name) {
            Err(Error::UnknownOption)
        } else if has_option(found, name) {
            Err(Error::DuplicateOption)
        } else if args.len() < 2 || has_prefix(args[1], "--"@) {
            Err(Error::MissingValue)
        } else {
            options_in(args.skip(2), allowed, found.push((name, args[1])))
        }
    }
}

/// The value of an option.
pub open spec fn option_value(values: Seq<(Seq<char>, Seq<char>)>, name: Seq<char>) -> Option<
    Seq<char>,
>
    decreases values.len(),
{
    if values.len() == 0 {
        None
    } else if values[0].0 == name {
        Some(values[0].1)
    } else {
        option_value(values.skip(1), name)
    }
}

/// The views of some texts.
pub open spec fn str_views(texts: Seq<&str>) -> Seq<Seq<char>> {
    texts.map_values(|t: &str| t@)
}

/// The views of pairs of texts.
pub open spec fn pair_views(pairs: Seq<(&str, &str)>) -> Seq<(Seq<char>, Seq<char>)> {
    pairs.map_values(|p: (&str, &str)| (p.0@, p.1@))
}

/// Options with allowed names, each at most once.
pub open spec fn proper_options(
    values: Seq<(Seq<char>, Seq<char>)>,
    allowed: Seq<Seq<char>>,
) -> bool {
    &&& forall|i: int| 0 <= i < values.len() ==> allowed.contains((#[trigger] values[i]).0)
    &&& forall|i: int, j: int|
        0 <= i < j < values.len() ==> (#[trigger] values[i]).0 != (#[trigger] values[j]).0
}

/// Options that are read have allowed names, and each has one value.
pub proof fn read_options_are_proper(
    args: Seq<Seq<char>>,
    allowed: Seq<Seq<char>>,
    found: Seq<(Seq<char>, Seq<char>)>,
)
    requires
        proper_options(found, allowed),
    ensures
        options_in(args, allowed, found) matches Ok(values) ==> proper_options(values, allowed),
    decreases args.len(),
{
    if args.len() >= 2 {
        let name = args[0].skip("--"@.len() as int);
        if allowed.contains(name) && !has_option(found, name) {
            let longer = found.push((name, args[1]));
            assert(proper_options(longer, allowed));
            read_options_are_proper(args.skip(2), allowed, longer);
        }
    }
}

/// Tells whether a text is one of some others.
pub fn is_one_of(text: &str, texts: &[&str]) -> (yes: bool)
    ensures
        yes == str_views(texts@).contains(text@),
{
    let mut i: usize = 0;
    while i < texts.len()
        invariant
            i <= texts@.len(),
            forall|k: int| 0 <= k < i ==> #[trigger] str_views(texts@)[k] != text@,
        decreases texts@.len() - i,
    {
        assert(str_views(texts@)[i as int] == texts@[i as int]@);
        if same(texts[i], text) {
            return true;
        }
        i += 1;
    }
    false
}

/// The options of a command: names and values.
pub struct Options<'a> {
    pub values: Vec<(&'a str, &'a str)>,
}

impl<'a> View for Options<'a> {
    type V = Seq<(Seq<char>, Seq<char>)>;

    open spec fn view(&self) -> Seq<(Seq<char>, Seq<char>)> {
        pair_views(self.values@)
    }
}

impl<'a> Options<'a> {
    /// Reads pairs of `--name` and a value.
    pub fn parse(args: &'a [String], allowed: &[&str]) -> (options: Result<Options<'a>, Error>)
        ensures
            match options_in(string_views(args@), str_views(allowed@), Seq::empty()) {
                Ok(values) => options matches Ok(o) && o@ == values,
                Err(error) => options == Err::<Options<'a>, Error>(error),
            },
    {
        let mut values: Vec<(&'a str, &'a str)> = Vec::new();
        let mut i: usize = 0;
        let ghost texts = string_views(args@);
        let ghost whole = options_in(texts, str_views(allowed@), Seq::empty());
        assert(pair_views(values@) =~= Seq::empty());
        assert(texts.skip(0) =~= texts);
        while i < args.len()
            invariant
                i <= args@.len(),
                texts == string_views(args@),
                whole == options_in(string_views(args@), str_views(allowed@), Seq::empty()),
                whole == options_in(texts.skip(i as int), str_views(allowed@), pair_views(values@)),
            decreases args@.len() - i,
        {
            let ghost rest = texts.skip(i as int);
            assert(rest[0] == args@[i as int]@);
            let name = match strip_prefix(args[i].as_str(), "--") {
                Some(name) => name,
                None => return Err(Error::OptionExpected),
            };
            if !is_one_of(name, allowed) {
                return Err(Error::UnknownOption);
            }
            let mut k: usize = 0;
            while k < values.len()
                invariant
                    k <= values@.len(),
                    rest.len() > 0,
                    whole == options_in(string_views(args@), str_views(allowed@), Seq::empty()),
                    has_prefix(rest[0], "--"@),
                    name@ == rest[0].skip("--"@.len() as int),
                    str_views(allowed@).contains(name@),
                    whole == options_in(rest, str_views(allowed@), pair_views(values@)),
                    forall|j: int| 0 <= j < k ==> (#[trigger] pair_views(values@)[j]).0 != name@,
                decreases values@.len() - k,
            {
                if same(values[k].0, name) {
                    assert(pair_views(values@)[k as int].0 == name@);
                    return Err(Error::DuplicateOption);
                }
                k += 1;
            }
            assert(!has_option(pair_views(values@), name@));
            if i + 1 >= args.len() {
                return Err(Error::MissingValue);
            }
            assert(rest[1] == args@[i + 1]@);
            let value = args[i + 1].as_str();
            if starts_with(value, "--") {
                return Err(Error::MissingValue);
            }
            let ghost before = values@;
            values.push((name, value));
            assert(pair_views(values@) =~= pair_views(before).push((name@, value@)));
            assert(rest.skip(2) =~= texts.skip(i + 2));
            i += 2;
        }
        assert(texts.skip(i as int) =~= Seq::empty());
        Ok(Options { values })
    }

    /// The value of an option.
    pub fn get(&self, name: &str) -> (value: Option<&'a str>)
        ensures
            match option_value(self@, name@) {
                Some(v) => value matches Some(r) && r@ == v,
                None => value is None,
            },
    {
        let mut i: usize = 0;
        assert(self@.skip(0) =~= self@);
        while i < self.values.len()
            invariant
                i <= self.values@.len(),
                option_value(self@, name@) == option_value(self@.skip(i as int), name@),
            decreases self.values@.len() - i,
        {
            let pair = self.values[i];
            assert(self@.skip(i as int)[0] == (pair.0@, pair.1@));
            assert(self@.skip(i as int).skip(1) =~= self@.skip(i + 1));
            if same(pair.0, name) {
                return Some(pair.1);
            }
            i += 1;
        }
        None
    }

    /// The value of an option that must be there.
    pub fn required(&self, name: &str) -> (value: Result<&'a str, Error>)
        ensures
            match option_value(self@, name@) {
                Some(v) => value matches Ok(r) && r@ == v,
                None => value matches Err(Error::MissingOption(n)) && n@ == name@,
            },
    {
        match self.get(name) {
            Some(value) => Ok(value),
            None => Err(Error::MissingOption(name.to_owned())),
        }
    }
}

/// Checks that a command has no arguments.
pub fn no_args(args: &[String]) -> (result: Result<(), Error>)
    ensures
        args@.len() == 0 ==> result is Ok,
        args@.len() > 0 ==> result == Err::<(), Error>(Error::UnexpectedArguments),
{
    if args.len() == 0 {
        Ok(())
    } else {
        Err(Error::UnexpectedArguments)
    }
}

// ---------------------------------------------------------------------------------------------
// Exports
// ---------------------------------------------------------------------------------------------
/// What an export shows.
#[derive(Clone, Copy, Debug, PartialEq, Eq, Structural)]
pub enum ExportKind {
    PrivateKey,
    Mnemonic,
}

/// Reads the arguments of an export: a name and one format.
pub fn parse_export(args: &[String]) -> (export: Result<(&str, ExportKind), Error>)
    ensures
        ({
            let words = string_views(args@);
            if words.len() == 2 && words[1] == "--private-key"@ {
                export matches Ok(e) && e.0@ == words[0] && e.1 == ExportKind::PrivateKey
            } else if words.len() == 2 && words[1] == "--mnemonic"@ {
                export matches Ok(e) && e.0@ == words[0] && e.1 == ExportKind::Mnemonic
            } else {
                export == Err::<(&str, ExportKind), Error>(Error::UsageExport)
            }
        }),
{
    if args.len() == 2 {
        assert(string_views(args@)[0] == args@[0]@);
        assert(string_views(args@)[1] == args@[1]@);
        if same(args[1].as_str(), "--private-key") {
            return Ok((args[0].as_str(), ExportKind::PrivateKey));
        }
        if same(args[1].as_str(), "--mnemonic") {
            return Ok((args[0].as_str(), ExportKind::Mnemonic));
        }
    }
    Err(Error::UsageExport)
}

// ---------------------------------------------------------------------------------------------
// Token accounts to close
// ---------------------------------------------------------------------------------------------
/// How many mints can be named.
pub const MAX_MINTS: usize = 512;

/// Which token accounts to close.
pub struct CloseSelectionView {
    pub wallet: Option<Seq<char>>,
    pub all: bool,
    pub burn: bool,
    pub mints: Seq<Seq<char>>,
}

/// The selection in some arguments, after what was selected before.
pub open spec fn selection_in(args: Seq<Seq<char>>, found: CloseSelectionView) -> Result<
    CloseSelectionView,
    Error,
>
    decreases args.len(),
{
    if args.len() == 0 {
        if found.all == (found.mints.len() > 0) {
            Err(Error::CloseTarget)
        } else {
            Ok(found)
        }
    } else if args[0] == "--wallet"@ {
        if found.wallet is Some {
            Err(Error::DuplicateWallet)
        } else if args.len() < 2 {
            Err(Error::WalletNeedsName)
        } else {
            selection_in(args.skip(2), CloseSelectionView { wallet: Some(args[1]), ..found })
        }
    } else if args[0] == "--all"@ {
        if found.all {
            Err(Error::DuplicateAll)
        } else {
            selection_in(args.skip(1), CloseSelectionView { all: true, ..found })
        }
    } else if args[0] == "--burn"@ {
        if found.burn {
            Err(Error::DuplicateBurn)
        } else {
            selection_in(args.skip(1), CloseSelectionView { burn: true, ..found })
        }
    } else if has_prefix(args[0], "-"@) {
        Err(Error::UnknownCloseOption)
    } else if found.mints.len() >= MAX_MINTS {
        Err(Error::TooManyMints)
    } else {
        selection_in(
            args.skip(1),
            CloseSelectionView { mints: found.mints.push(args[0]), ..found },
        )
    }
}

/// Which token accounts to close: those of one wallet, all of them or those of some mints, with
/// or without burning what they hold.
pub struct CloseSelection {
    pub wallet: Option<String>,
    pub all: bool,
    pub burn: bool,
    pub mints: Vec<String>,
}

impl View for CloseSelection {
    type V = CloseSelectionView;

    open spec fn view(&self) -> CloseSelectionView {
        CloseSelectionView {
            wallet: match self.wallet {
                Some(name) => Some(name@),
                None => None,
            },
            all: self.all,
            burn: self.burn,
            mints: string_views(self.mints@),
        }
    }
}

/// Reads which token accounts to close.
pub fn parse_close_selection(args: &[String]) -> (selection: Result<CloseSelection, Error>)
    ensures
        match selection_in(
            string_views(args@),
            CloseSelectionView { wallet: None, all: false, burn: false, mints: Seq::empty() },
        ) {
            Ok(s) => selection matches Ok(r) && r@ == s,
            Err(error) => selection == Err::<CloseSelection, Error>(error),
        },
{
    let mut found = CloseSelection { wallet: None, all: false, burn: false, mints: Vec::new() };
    let ghost texts = string_views(args@);
    let ghost whole = selection_in(
        texts,
        CloseSelectionView { wallet: None, all: false, burn: false, mints: Seq::empty() },
    );
    let mut i: usize = 0;
    proof {
        assert(texts.skip(0) =~= texts);
        assert(string_views(found.mints@) =~= Seq::empty());
    }
    while i < args.len()
        invariant
            i <= args@.len(),
            texts == string_views(args@),
            whole == selection_in(
                string_views(args@),
                CloseSelectionView { wallet: None, all: false, burn: false, mints: Seq::empty() },
            ),
            whole == selection_in(texts.skip(i as int), found@),
        decreases args@.len() - i,
    {
        let ghost rest = texts.skip(i as int);
        assert(rest[0] == args@[i as int]@);
        let word = args[i].as_str();
        if same(word, "--wallet") {
            if found.wallet.is_some() {
                return Err(Error::DuplicateWallet);
            }
            if i + 1 >= args.len() {
                return Err(Error::WalletNeedsName);
            }
            assert(rest[1] == args@[i + 1]@);
            assert(rest.skip(2) =~= texts.skip(i + 2));
            found.wallet = Some(args[i + 1].clone());
            i += 2;
        } else {
            assert(rest.skip(1) =~= texts.skip(i + 1));
            if same(word, "--all") {
                if found.all {
                    return Err(Error::DuplicateAll);
                }
                found.all = true;
            } else if same(word, "--burn") {
                if found.burn {
                    return Err(Error::DuplicateBurn);
                }
                found.burn = true;
            } else if starts_with(word, "-") {
                return Err(Error::UnknownCloseOption);
            } else {
                if found.mints.len() >= MAX_MINTS {
                    return Err(Error::TooManyMints);
                }
                let ghost before = found.mints@;
                found.mints.push(args[i].clone());
                assert(string_views(found.mints@) =~= string_views(before).push(word@));
            }
            i += 1;
        }
    }
    assert(texts.skip(i as int) =~= Seq::empty());
    if found.all == (found.mints.len() > 0) {
        return Err(Error::CloseTarget);
    }
    Ok(found)
}

/// A selection does no more than was asked for: it burns only where `--burn` was given, takes all
/// only where `--all` was, names only mints that were given, and is either all or some mints. What
/// was selected before stays.
pub proof fn selections_do_no_more_than_asked(args: Seq<Seq<char>>, found: CloseSelectionView)
    ensures
        selection_in(args, found) matches Ok(s) ==> {
            &&& s.burn ==> found.burn || args.contains("--burn"@)
            &&& s.all ==> found.all || args.contains("--all"@)
            &&& found.burn ==> s.burn
            &&& found.all ==> s.all
            &&& s.all != (s.mints.len() > 0)
            &&& found.mints.len() <= s.mints.len()
            &&& s.mints.take(found.mints.len() as int) == found.mints
            &&& forall|i: int|
                found.mints.len() <= i < s.mints.len() ==> args.contains(#[trigger] s.mints[i])
                    && !has_prefix(s.mints[i], "-"@)
            &&& s.wallet is Some ==> s.wallet == found.wallet || args.contains(s.wallet->Some_0)
            &&& found.wallet is Some ==> s.wallet == found.wallet
            &&& found.wallet is None && s.wallet is Some ==> args.contains("--wallet"@)
        },
    decreases args.len(),
{
    if args.len() == 0 {
        assert(found.mints.take(found.mints.len() as int) =~= found.mints);
    } else if selection_in(args, found) is Ok {
        let s = selection_in(args, found)->Ok_0;
        assert(args.contains(args[0]));
        if args[0] == "--wallet"@ {
            assert(args.contains(args[1]));
            let rest = args.skip(2);
            selections_do_no_more_than_asked(
                rest,
                CloseSelectionView { wallet: Some(args[1]), ..found },
            );
            lemma_contains_skip(args, 2);
        } else if args[0] == "--all"@ {
            selections_do_no_more_than_asked(
                args.skip(1),
                CloseSelectionView { all: true, ..found },
            );
            lemma_contains_skip(args, 1);
        } else if args[0] == "--burn"@ {
            selections_do_no_more_than_asked(
                args.skip(1),
                CloseSelectionView { burn: true, ..found },
            );
            lemma_contains_skip(args, 1);
        } else {
            let longer = found.mints.push(args[0]);
            selections_do_no_more_than_asked(
                args.skip(1),
                CloseSelectionView { mints: longer, ..found },
            );
            lemma_contains_skip(args, 1);
            let n = found.mints.len() as int;
            assert(s.mints[n] == s.mints.take(n + 1)[n]);
            assert(s.mints.take(n) =~= s.mints.take(n + 1).take(n));
            assert(longer.take(n) =~= found.mints);
            assert forall|i: int| n <= i < s.mints.len() implies args.contains(#[trigger] s.mints[i])
                && !has_prefix(s.mints[i], "-"@) by {
                if i == n {
                    assert(s.mints[i] == args[0]);
                }
            }
        }
    }
}

proof fn lemma_contains_skip(args: Seq<Seq<char>>, n: int)
    requires
        0 <= n <= args.len(),
    ensures
        forall|word: Seq<char>| #[trigger]
            args.skip(n).contains(word) ==> args.contains(word),
{
    assert forall|word: Seq<char>| #[trigger] args.skip(n).contains(word) implies args.contains(
        word,
    ) by {
        let i = choose|i: int| 0 <= i < args.skip(n).len() && args.skip(n)[i] == word;
        assert(args[i + n] == word);
    }
}

/// What is asked for is done: a switch at the front is set, and a mint at the front is named.
pub proof fn selections_do_what_was_asked(
    word: Seq<char>,
    rest: Seq<Seq<char>>,
    found: CloseSelectionView,
)
    ensures
        ({
            let args = seq![word] + rest;
            &&& word == "--all"@ && selection_in(args, found) is Ok ==> selection_in(
                args,
                found,
            )->Ok_0.all
            &&& word == "--burn"@ && selection_in(args, found) is Ok ==> selection_in(
                args,
                found,
            )->Ok_0.burn
            &&& word == "--wallet"@ && selection_in(args, found) is Ok ==> rest.len() > 0
                && selection_in(args, found)->Ok_0.wallet == Some(rest[0])
            &&& !has_prefix(word, "-"@) && selection_in(args, found) is Ok ==> selection_in(
                args,
                found,
            )->Ok_0.mints.len() > found.mints.len() && selection_in(
                args,
                found,
            )->Ok_0.mints[found.mints.len() as int] == word
        }),
{
    reveal_strlit("-");
    reveal_strlit("--all");
    reveal_strlit("--burn");
    reveal_strlit("--wallet");
    let args = seq![word] + rest;
    assert(args[0] == word);
    assert("--all"@.subrange(0, 1) =~= "-"@);
    assert("--burn"@.subrange(0, 1) =~= "-"@);
    assert("--wallet"@.subrange(0, 1) =~= "-"@);
    assert("--all"@.len() == 5 && "--burn"@.len() == 6 && "--wallet"@.len() == 8);
    if selection_in(args, found) is Ok {
        let s = selection_in(args, found)->Ok_0;
        if word == "--wallet"@ {
            assert(args[1] == rest[0]);
            selections_do_no_more_than_asked(
                args.skip(2),
                CloseSelectionView { wallet: Some(args[1]), ..found },
            );
        } else if word == "--all"@ {
            selections_do_no_more_than_asked(
                args.skip(1),
                CloseSelectionView { all: true, ..found },
            );
        } else if word == "--burn"@ {
            selections_do_no_more_than_asked(
                args.skip(1),
                CloseSelectionView { burn: true, ..found },
            );
        } else if !has_prefix(word, "-"@) {
            let longer = found.mints.push(word);
            selections_do_no_more_than_asked(
                args.skip(1),
                CloseSelectionView { mints: longer, ..found },
            );
            let n = found.mints.len() as int;
            assert(s.mints[n] == s.mints.take(n + 1)[n]);
        }
    }
}

/// The value of an option is the one that was given for it, and an option that was not given has
/// none.
pub proof fn options_have_the_given_values(
    values: Seq<(Seq<char>, Seq<char>)>,
    name: Seq<char>,
    i: int,
)
    requires
        forall|a: int, b: int|
            0 <= a < b < values.len() ==> (#[trigger] values[a]).0 != (#[trigger] values[b]).0,
    ensures
        0 <= i < values.len() && values[i].0 == name ==> option_value(values, name) == Some(
            values[i].1,
        ),
        option_value(values, name) is None == !has_option(values, name),
    decreases values.len(),
{
    if values.len() > 0 {
        let rest = values.skip(1);
        assert forall|a: int, b: int| 0 <= a < b < rest.len() implies (#[trigger] rest[a]).0 != (
        #[trigger] rest[b]).0 by {
            assert(rest[a] == values[a + 1] && rest[b] == values[b + 1]);
        }
        options_have_the_given_values(rest, name, i - 1);
        if 0 < i < values.len() {
            assert(rest[i - 1] == values[i]);
        }
        if has_option(rest, name) {
            let k = choose|k: int| 0 <= k < rest.len() && (#[trigger] rest[k]).0 == name;
            assert(values[k + 1].0 == name);
        }
        if has_option(values, name) && values[0].0 != name {
            let k = choose|k: int| 0 <= k < values.len() && (#[trigger] values[k]).0 == name;
            assert(rest[k - 1].0 == name);
        }
    }
}

} // verus!
