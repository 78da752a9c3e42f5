//! Looking up the token accounts of some mints, one after the other, before they are closed.
use vstd::prelude::*;
use vstd::string::*;

use crate::close::{candidate_views, is_native_mint, native_mint, CandidateView, CloseCandidate};
use crate::error::Error;
use crate::instruction::{associated_account, ata};
use crate::json::Json;
use crate::pubkey::{address_of_text, address_text, Pubkey};
use crate::rpc::{account_info_call, account_info_in, account_info_result, address_call,
    token_balance_in, token_balance_result, token_decimals_in, token_decimals_result, CallView, Rpc,
    RpcCall};
use crate::text::{same, string_views};
use crate::transfer::{mint_program, mint_program_in, Need, NeedView};

verus! {

/// The token account of a mint.
pub struct PlaceView {
    pub mint: Seq<u8>,
    pub program: Seq<u8>,
    pub address: Seq<u8>,
}

/// Which answer is waited for.
pub enum SelectStageView {
    Mint { mint: Seq<u8> },
    Account { place: PlaceView },
    Exists { place: PlaceView },
    Balance { place: PlaceView },
    Decimals { place: PlaceView, raw_amount: u64 },
    Over,
}

/// A selection: whose accounts, of which mints, and what was found of the mints before the
/// current one.
pub struct SelectView {
    pub owner: Seq<u8>,
    pub burn: bool,
    pub mints: Seq<Seq<char>>,
    pub found: Seq<CandidateView>,
    pub stage: SelectStageView,
}

/// One of some candidates has a mint.
pub open spec fn has_mint(candidates: Seq<CandidateView>, mint: Seq<u8>) -> bool {
    exists|i: int| 0 <= i < candidates.len() && (#[trigger] candidates[i]).mint == mint
}

impl SelectView {
    /// The selection stops with a message.
    pub open spec fn stop(self, message: Seq<char>) -> (SelectView, NeedView) {
        (SelectView { stage: SelectStageView::Over, ..self }, NeedView::Fail(message))
    }

    /// The selection goes on with a call.
    pub open spec fn ask(self, stage: SelectStageView, call: CallView) -> (SelectView, NeedView) {
        (SelectView { stage, ..self }, NeedView::Call(call))
    }

    /// The next mint is looked at, until there is none.
    pub open spec fn advance(self) -> (SelectView, NeedView) {
        if self.found.len() >= self.mints.len() {
            (SelectView { stage: SelectStageView::Over, ..self }, NeedView::Ready)
        } else {
            match address_of_text(self.mints[self.found.len() as int]) {
                Err(message) => self.stop(message),
                Ok(mint) => if has_mint(self.found, mint) {
                    self.stop(Error::DuplicateMint.text())
                } else {
                    self.ask(SelectStageView::Mint { mint }, account_info_call(mint))
                },
            }
        }
    }

    /// A token account was found.
    pub open spec fn take(self, place: PlaceView, raw_amount: u64, decimals: u8) -> (
        SelectView,
        NeedView,
    ) {
        SelectView {
            found: self.found.push(
                CandidateView {
                    mint: place.mint,
                    address: place.address,
                    program: place.program,
                    raw_amount,
                    decimals,
                },
            ),
            ..self
        }.advance()
    }

    /// What follows when the last call was answered.
    pub open spec fn after(self, reply: Json) -> (SelectView, NeedView) {
        match self.stage {
            SelectStageView::Mint { mint } => match mint_program_in(reply) {
                Err(message) => self.stop(message),
                Ok(program) => match associated_account(self.owner, mint, program) {
                    None => self.stop(Error::NoProgramAddress.text()),
                    Some(address) => self.ask(
                        SelectStageView::Account { place: PlaceView { mint, program, address } },
                        account_info_call(address),
                    ),
                },
            },
            SelectStageView::Account { place } => match account_info_in(reply) {
                Err(error) => self.stop(error.text()),
                Ok(None) => self.stop(Error::AtaMissing.text()),
                Ok(Some(info)) => if info.member_string("owner"@) != Some(
                    address_text(place.program),
                ) {
                    self.stop(Error::AtaOwner.text())
                } else {
                    self.ask(SelectStageView::Exists { place }, account_info_call(place.address))
                },
            },
            SelectStageView::Exists { place } => match account_info_in(reply) {
                Err(error) => self.stop(error.text()),
                Ok(None) => self.stop(Error::AtaGone.text()),
                Ok(Some(_)) => self.ask(
                    SelectStageView::Balance { place },
                    address_call("getTokenAccountBalance"@, place.address),
                ),
            },
            SelectStageView::Balance { place } => match token_balance_in(reply) {
                Err(error) => self.stop(error.text()),
                Ok(raw_amount) => if raw_amount != 0 && !self.burn {
                    self.stop(Error::AtaNotEmpty.text())
                } else if raw_amount != 0 && !native_mint(place.mint, place.program) {
                    self.ask(
                        SelectStageView::Decimals { place, raw_amount },
                        address_call("getTokenSupply"@, place.mint),
                    )
                } else {
                    self.take(place, raw_amount, 0)
                },
            },
            SelectStageView::Decimals { place, raw_amount } => match token_decimals_in(reply) {
                Err(error) => self.stop(error.text()),
                Ok(decimals) => self.take(place, raw_amount, decimals),
            },
            SelectStageView::Over => self.stop(""@),
        }
    }
}

/// The token account of a mint.
#[derive(Clone, Copy)]
pub struct Place {
    pub mint: Pubkey,
    pub program: Pubkey,
    pub address: Pubkey,
}

impl View for Place {
    type V = PlaceView;

    open spec fn view(&self) -> PlaceView {
        PlaceView { mint: self.mint@, program: self.program@, address: self.address@ }
    }
}

/// Which answer is waited for.
#[derive(Clone, Copy)]
pub enum SelectStage {
    Mint { mint: Pubkey },
    Account { place: Place },
    Exists { place: Place },
    Balance { place: Place },
    Decimals { place: Place, raw_amount: u64 },
    Over,
}

impl View for SelectStage {
    type V = SelectStageView;

    open spec fn view(&self) -> SelectStageView {
        match self {
            SelectStage::Mint { mint } => SelectStageView::Mint { mint: mint@ },
            SelectStage::Account { place } => SelectStageView::Account { place: place@ },
            SelectStage::Exists { place } => SelectStageView::Exists { place: place@ },
            SelectStage::Balance { place } => SelectStageView::Balance { place: place@ },
            SelectStage::Decimals { place, raw_amount } => SelectStageView::Decimals {
                place: place@,
                raw_amount: *raw_amount,
            },
            SelectStage::Over => SelectStageView::Over,
        }
    }
}

/// A selection of the token accounts of some mints.
pub struct Selecting {
    pub owner: Pubkey,
    pub burn: bool,
    pub mints: Vec<String>,
    pub found: Vec<CloseCandidate>,
    pub stage: SelectStage,
}

impl View for Selecting {
    type V = SelectView;

    open spec fn view(&self) -> SelectView {
        SelectView {
            owner: self.owner@,
            burn: self.burn,
            mints: string_views(self.mints@),
            found: candidate_views(self.found@),
            stage: self.stage@,
        }
    }
}

impl Selecting {
    /// A selection of the token accounts of some mints.
    pub fn new(owner: Pubkey, mints: Vec<String>, burn: bool) -> (selecting: Self)
        ensures
            selecting@ == (SelectView {
                owner: owner@,
                burn,
                mints: string_views(mints@),
                found: Seq::empty(),
                stage: SelectStageView::Over,
            }),
    {
        let selecting = Selecting {
            owner,
            burn,
            mints,
            found: Vec::new(),
            stage: SelectStage::Over,
        };
        assert(selecting@.found =~= Seq::empty());
        selecting
    }

    fn stop(&mut self, error: Error) -> (need: Need)
        ensures
            (final(self)@, need@) == old(self)@.stop(error.text()),
    {
        self.stage = SelectStage::Over;
        Need::Fail(error)
    }

    fn ask(&mut self, stage: SelectStage, call: RpcCall) -> (need: Need)
        ensures
            (final(self)@, need@) == old(self)@.ask(stage@, call@),
    {
        self.stage = stage;
        Need::Call(call)
    }

    /// Tells whether a mint was looked at.
    fn has(&self, mint: &Pubkey) -> (yes: bool)
        ensures
            yes == has_mint(self@.found, mint@),
    {
        let mut i: usize = 0;
        while i < self.found.len()
            invariant
                i <= self.found@.len(),
                forall|k: int| 0 <= k < i ==> (#[trigger] self@.found[k]).mint != mint@,
            decreases self.found@.len() - i,
        {
            assert(self@.found[i as int] == self.found@[i as int]@);
            if self.found[i].mint.same(mint) {
                return true;
            }
            i += 1;
        }
        false
    }

    /// Looks at the next mint, until there is none.
    pub fn advance(&mut self) -> (need: Need)
        ensures
            (final(self)@, need@) == old(self)@.advance(),
    {
        let at: usize = self.found.len();
        if at >= self.mints.len() {
            self.stage = SelectStage::Over;
            return Need::Ready;
        }
        assert(self@.mints[at as int] == self.mints@[at as int]@);
        let mint = match Pubkey::parse(self.mints[at].as_str()) {
            Ok(mint) => mint,
            Err(error) => return self.stop(error),
        };
        if self.has(&mint) {
            return self.stop(Error::DuplicateMint);
        }
        self.ask(SelectStage::Mint { mint }, Rpc::account_info(&mint))
    }

    fn take(&mut self, place: Place, raw_amount: u64, decimals: u8) -> (need: Need)
        ensures
            (final(self)@, need@) == old(self)@.take(place@, raw_amount, decimals),
    {
        let candidate = CloseCandidate {
            mint: place.mint,
            address: place.address,
            program: place.program,
            raw_amount,
            decimals,
        };
        self.found.push(candidate);
        assert(self@.found =~= old(self)@.found.push(candidate@));
        self.advance()
    }

    /// Takes the answer to the last call.
    pub fn selected_atas(&mut self, reply: &Json) -> (need: Need)
        requires
            !(old(self).stage is Over),
        ensures
            (final(self)@, need@) == old(self)@.after(*reply),
    {
        match self.stage {
            SelectStage::Mint { mint } => {
                let program = match mint_program(reply) {
                    Ok(program) => program,
                    Err(error) => return self.stop(error),
                };
                match ata(&self.owner, &mint, &program) {
                    Ok(address) => self.ask(
                        SelectStage::Account { place: Place { mint, program, address } },
                        Rpc::account_info(&address),
                    ),
                    Err(error) => self.stop(error),
                }
            },
            SelectStage::Account { place } => match account_info_result(reply) {
                Ok(Some(info)) => {
                    let owned = match info.get_str("owner") {
                        Some(owner) => same(owner, place.program.text().as_str()),
                        None => false,
                    };
                    if !owned {
                        return self.stop(Error::AtaOwner);
                    }
                    self.ask(SelectStage::Exists { place }, Rpc::account_info(&place.address))
                },
                Ok(None) => self.stop(Error::AtaMissing),
                Err(error) => self.stop(error),
            },
            SelectStage::Exists { place } => match account_info_result(reply) {
                Ok(Some(_)) => self.ask(
                    SelectStage::Balance { place },
                    Rpc::token_balance(&place.address),
                ),
                Ok(None) => self.stop(Error::AtaGone),
                Err(error) => self.stop(error),
            },
            SelectStage::Balance { place } => {
                let raw_amount: u64 = match token_balance_result(reply) {
                    Ok(raw_amount) => raw_amount,
                    Err(error) => return self.stop(error),
                };
                if raw_amount != 0 && !self.burn {
                    self.stop(Error::AtaNotEmpty)
                } else if raw_amount != 0 && !is_native_mint(&place.mint, &place.program) {
                    self.ask(
                        SelectStage::Decimals { place, raw_amount },
                        Rpc::token_decimals(&place.mint),
                    )
                } else {
                    self.take(place, raw_amount, 0)
                }
            },
            SelectStage::Decimals { place, raw_amount } => match token_decimals_result(reply) {
                Ok(decimals) => self.take(place, raw_amount, decimals),
                Err(error) => self.stop(error),
            },
            SelectStage::Over => self.stop(Error::Outside("".to_owned())),
        }
    }
}

impl SelectView {
    /// The associated account of the owner for a mint.
    pub open spec fn owned(self, mint: Seq<u8>, program: Seq<u8>, address: Seq<u8>) -> bool {
        associated_account(self.owner, mint, program) == Some(address)
    }

    /// The account that is looked at is the owner's, for a mint that was not selected yet.
    pub open spec fn fresh(self, place: PlaceView) -> bool {
        self.owned(place.mint, place.program, place.address) && !has_mint(self.found, place.mint)
    }

    /// Only associated accounts of the owner are selected, no mint is selected twice, and without
    /// leave to burn only empty accounts are.
    pub open spec fn sound(self) -> bool {
        &&& forall|i: int, j: int|
            0 <= i < j < self.found.len() ==> (#[trigger] self.found[i]).mint != (
            #[trigger] self.found[j]).mint
        &&& forall|i: int|
            0 <= i < self.found.len() ==> {
                let c = #[trigger] self.found[i];
                self.owned(c.mint, c.program, c.address) && (self.burn || c.raw_amount == 0)
            }
        &&& match self.stage {
            SelectStageView::Mint { mint } => !has_mint(self.found, mint),
            SelectStageView::Account { place } => self.fresh(place),
            SelectStageView::Exists { place } => self.fresh(place),
            SelectStageView::Balance { place } => self.fresh(place),
            SelectStageView::Decimals { place, raw_amount } => self.fresh(place) && raw_amount != 0
                && self.burn,
            SelectStageView::Over => true,
        }
    }
}

/// A selection starts sound and stays sound, whatever the network answers: only associated accounts
/// of the owner are selected, no mint is selected twice, and without leave to burn only empty
/// accounts are.
pub proof fn selections_stay_sound(selection: SelectView, reply: Json)
    ensures
        selection.found.len() == 0 ==> selection.advance().0.sound(),
        selection.sound() ==> selection.after(reply).0.sound(),
{
}

impl SelectView {
    /// The mint that is looked at, where there is one.
    pub open spec fn current(self) -> Option<Seq<u8>> {
        match self.stage {
            SelectStageView::Mint { mint } => Some(mint),
            SelectStageView::Account { place } => Some(place.mint),
            SelectStageView::Exists { place } => Some(place.mint),
            SelectStageView::Balance { place } => Some(place.mint),
            SelectStageView::Decimals { place, .. } => Some(place.mint),
            SelectStageView::Over => None,
        }
    }

    /// What was found belongs to the first of the wanted mints, in order, and the next one of them is
    /// looked at.
    pub open spec fn follows(self) -> bool {
        &&& self.found.len() <= self.mints.len()
        &&& forall|i: int|
            0 <= i < self.found.len() ==> address_of_text(#[trigger] self.mints[i]) == Ok::<
                Seq<u8>,
                Seq<char>,
            >(self.found[i].mint)
        &&& self.current() is Some ==> self.found.len() < self.mints.len() && address_of_text(
            self.mints[self.found.len() as int],
        ) == Ok::<Seq<u8>, Seq<char>>(self.current()->Some_0)
    }
}

/// A selection goes through the wanted mints in order, one after the other, and is ready only when
/// every one of them was found.
pub proof fn selections_follow_the_mints(selection: SelectView, reply: Json)
    ensures
        selection.found.len() == 0 ==> selection.advance().0.follows(),
        selection.found.len() == 0 && selection.advance().1 is Ready ==> selection.mints.len() == 0,
        selection.follows() && !(selection.stage is Over) ==> {
            let (after, need) = selection.after(reply);
            &&& after.follows()
            &&& after.mints == selection.mints
            &&& after.owner == selection.owner
            &&& after.burn == selection.burn
            &&& need is Ready ==> after.found.len() == after.mints.len()
            &&& need is Fail ==> after.found.len() <= selection.found.len() + 1
        },
{
    if selection.follows() && !(selection.stage is Over) {
        let (after, need) = selection.after(reply);
        assert forall|i: int| 0 <= i < after.found.len() implies address_of_text(
            #[trigger] after.mints[i],
        ) == Ok::<Seq<u8>, Seq<char>>(after.found[i].mint) by {
            assert(selection.mints[i] == after.mints[i]);
        }
    }
}

/// What is found of a mint is what the network says: its token program, that the owner's account
/// exists and belongs to that program, its balance and, where it has one to burn, the decimals of
/// the mint. Each step asks about the account or mint that the next answer is read for.
pub proof fn selections_follow_the_answers(selection: SelectView, reply: Json)
    requires
        !(selection.stage is Over),
    ensures
        ({
            let (after, need) = selection.after(reply);
            &&& after.stage matches SelectStageView::Account { place } ==> {
                &&& selection.stage == (SelectStageView::Mint { mint: place.mint })
                &&& mint_program_in(reply) == Ok::<Seq<u8>, Seq<char>>(place.program)
                &&& associated_account(selection.owner, place.mint, place.program) == Some(
                    place.address,
                )
                &&& need == NeedView::Call(account_info_call(place.address))
            }
            &&& after.stage matches SelectStageView::Exists { place } ==> {
                &&& selection.stage == (SelectStageView::Account { place })
                &&& reply.member("value"@) is Some
                &&& reply.member("value"@)->Some_0.member_string("owner"@) == Some(
                    address_text(place.program),
                )
            }
            &&& after.stage matches SelectStageView::Balance { place } ==> {
                &&& selection.stage == (SelectStageView::Exists { place })
                &&& need == NeedView::Call(
                    address_call("getTokenAccountBalance"@, place.address),
                )
            }
            &&& after.stage matches SelectStageView::Decimals { place, raw_amount } ==> {
                &&& selection.stage == (SelectStageView::Balance { place })
                &&& token_balance_in(reply) == Ok::<u64, Error>(raw_amount)
                &&& raw_amount > 0 && selection.burn
                &&& need == NeedView::Call(address_call("getTokenSupply"@, place.mint))
            }
            &&& after.found.len() > selection.found.len() ==> {
                let c = after.found[selection.found.len() as int];
                &&& after.found == selection.found.push(c)
                &&& selection.stage matches SelectStageView::Balance { place } ==> c.mint
                    == place.mint && c.address == place.address && c.program == place.program
                    && token_balance_in(reply) == Ok::<u64, Error>(c.raw_amount) && !c.must_burn()
                &&& selection.stage matches SelectStageView::Decimals { place, raw_amount }
                    ==> c.mint == place.mint && c.address == place.address && c.program
                    == place.program && c.raw_amount == raw_amount && token_decimals_in(reply)
                    == Ok::<u8, Error>(c.decimals)
                &&& selection.stage is Balance || selection.stage is Decimals
            }
            &&& after.found.len() == selection.found.len() ==> after.found == selection.found
        }),
{
}

} // verus!
