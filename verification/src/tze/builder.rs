//! Building the transparent-extension part of a transaction: inputs and
//! outputs are collected first, and the witnesses of the inputs are built and
//! checked once the whole transaction is known.

use vstd::prelude::*;
use vstd::string::*;
use crate::text::{decimal, push_decimal};
use crate::primitives::{money_range, Amount};
use crate::tze::{
    AuthData, Authorization, Authorized, AuthorizedInput, Bundle, OutPoint, Precondition,
    ToPayload, TzeIn, TzeOut, TzeOutView, Witness,
};

verus! {

/// Why the transparent-extension part of a transaction cannot be built.
#[derive(Clone, Copy, Debug, PartialEq, Eq, Structural)]
pub enum Error {
    /// An output was given a negative value.
    InvalidAmount,
    /// A witness was built for another mode than the one its input was added
    /// with; the payload is the mode of the input, then the mode of the witness.
    WitnessModeMismatch(u32, u32),
}

/// What is kept of an input until its witness can be built: the output that
/// it spends, and the builder of the witness.
pub struct TzeSigner<F> {
    pub prevout: TzeOut,
    pub builder: F,
}

/// The builder of the transparent-extension part of a transaction.
pub struct TzeBuilder<F> {
    signers: Vec<TzeSigner<F>>,
    vin: Vec<TzeIn<()>>,
    vout: Vec<TzeOut>,
}

/// The mark of a bundle whose inputs do not carry their witnesses yet.
#[derive(Debug, Copy, Clone, PartialEq, Eq)]
pub struct Unauthorized {}

impl Authorization for Unauthorized {
    type Witness = ();
}

/// The values of the outputs.
pub open spec fn values_of(outputs: Seq<TzeOutView>) -> Seq<int> {
    outputs.map_values(|o: TzeOutView| o.value)
}

/// The sum of the values, taken in their order, as long as every sum on the
/// way is an amount.
pub open spec fn sum_amounts(values: Seq<int>) -> Option<int>
    decreases values.len(),
{
    if values.len() == 0 {
        Some(0)
    } else {
        match sum_amounts(values.drop_last()) {
            Some(s) => if money_range(s + values.last()) {
                Some(s + values.last())
            } else {
                None
            },
            None => None,
        }
    }
}

/// The value that the inputs bring less the value that the outputs take,
/// where the two sums and their difference are amounts.
pub open spec fn balance(spent: Seq<TzeOutView>, outputs: Seq<TzeOutView>) -> Option<int> {
    match (sum_amounts(values_of(spent)), sum_amounts(values_of(outputs))) {
        (Some(a), Some(b)) => if money_range(a - b) {
            Some(a - b)
        } else {
            None
        },
        _ => None,
    }
}

/// Sums the values of the outputs.
fn sum_values(outputs: &Vec<TzeOut>) -> (r: Option<Amount>)
    ensures
        match sum_amounts(values_of(outputs@.map_values(|o: TzeOut| o@))) {
            Some(s) => r is Some && r->Some_0@ == s,
            None => r is None,
        },
{
    let ghost values = values_of(outputs@.map_values(|o: TzeOut| o@));
    let mut sum = Amount::zero();
    let mut i: usize = 0;
    assert(values.take(0) =~= Seq::<int>::empty());
    while i < outputs.len()
        invariant
            i <= outputs.len(),
            values == values_of(outputs@.map_values(|o: TzeOut| o@)),
            sum_amounts(values.take(i as int)) == Some(sum@),
        decreases outputs.len() - i,
    {
        proof {
            assert(values.take(i + 1).drop_last() =~= values.take(i as int));
            assert(values.take(i + 1).last() == outputs[i as int].value@);
        }
        match sum.checked_add(&outputs[i].value) {
            Some(s) => {
                sum = s;
            },
            None => {
                proof {
                    lemma_sum_stays_none(values, i + 1);
                }
                return None;
            },
        }
        i += 1;
    }
    assert(values.take(i as int) =~= values);
    Some(sum)
}

/// A sum that is no amount on the way is no amount at the end.
proof fn lemma_sum_stays_none(values: Seq<int>, k: int)
    requires
        0 <= k <= values.len(),
        sum_amounts(values.take(k)) is None,
    ensures
        sum_amounts(values) is None,
    decreases values.len(),
{
    if k == values.len() {
        assert(values.take(k) =~= values);
    } else {
        assert(values.drop_last().take(k) =~= values.take(k));
        lemma_sum_stays_none(values.drop_last(), k);
    }
}

impl<F> TzeBuilder<F> {
    /// There is one signer for each input.
    #[verifier::type_invariant]
    closed spec fn inv(&self) -> bool {
        self.signers@.len() == self.vin@.len()
    }

    /// The inputs that were added, in their order.
    pub closed spec fn inputs(&self) -> Seq<TzeIn<()>> {
        self.vin@
    }

    /// The outputs that were added, in their order.
    pub closed spec fn outputs(&self) -> Seq<TzeOutView> {
        self.vout@.map_values(|o: TzeOut| o@)
    }

    /// What is kept of the inputs until their witnesses can be built.
    pub closed spec fn signers(&self) -> Seq<TzeSigner<F>> {
        self.signers@
    }

    /// The outputs that the inputs spend.
    pub open spec fn spent(&self) -> Seq<TzeOutView> {
        self.signers().map_values(|s: TzeSigner<F>| s.prevout@)
    }

    /// A builder without inputs and outputs.
    pub fn empty() -> (r: Self)
        ensures
            r.inputs() == Seq::<TzeIn<()>>::empty(),
            r.outputs() == Seq::<TzeOutView>::empty(),
            r.signers() == Seq::<TzeSigner<F>>::empty(),
    {
        let r = TzeBuilder { signers: Vec::new(), vin: Vec::new(), vout: Vec::new() };
        assert(r.outputs() =~= Seq::<TzeOutView>::empty());
        r
    }

    /// Takes the builder out of its place and leaves an empty one there.
    fn take(&mut self) -> (r: Self)
        ensures
            r == *old(self),
            final(self).inputs() == Seq::<TzeIn<()>>::empty(),
            final(self).outputs() == Seq::<TzeOutView>::empty(),
            final(self).signers() == Seq::<TzeSigner<F>>::empty(),
    {
        let mut taken = Self::empty();
        core::mem::swap(self, &mut taken);
        taken
    }

    /// Adds an input that spends `input.1`, found at `input.0`, in the given
    /// mode of the given extension; `witness_builder`, which builds the
    /// witness of the input, is kept until the transaction is known.
    pub fn add_input(
        &mut self,
        extension_id: u32,
        mode: u32,
        input: (OutPoint, TzeOut),
        witness_builder: F,
    )
        ensures
            final(self).inputs() == old(self).inputs().push(
                TzeIn {
                    prevout: input.0,
                    witness: Witness { extension_id, mode, payload: () },
                },
            ),
            final(self).signers() == old(self).signers().push(
                TzeSigner { prevout: input.1, builder: witness_builder },
            ),
            final(self).outputs() == old(self).outputs(),
            final(self).signers().len() == final(self).inputs().len(),
    {
        let (outpoint, prevout) = input;
        let taken = self.take();
        proof {
            use_type_invariant(&taken);
        }
        let TzeBuilder { mut signers, mut vin, vout } = taken;
        vin.push(TzeIn::new(outpoint, extension_id, mode));
        signers.push(TzeSigner { prevout, builder: witness_builder });
        *self = TzeBuilder { signers, vin, vout };
    }

    /// Adds an output of the value `value` that `guarded_by` guards. A
    /// negative value is refused, and nothing is added.
    pub fn add_output<G: ToPayload>(&mut self, extension_id: u32, value: Amount, guarded_by: &G) -> (r:
        Result<(), Error>)
        ensures
            final(self).inputs() == old(self).inputs(),
            final(self).signers() == old(self).signers(),
            value@ < 0 ==> r == Err::<(), Error>(Error::InvalidAmount) && final(self).outputs()
                == old(self).outputs(),
            value@ >= 0 ==> r is Ok && final(self).outputs() == old(self).outputs().push(
                TzeOutView {
                    value: value@,
                    extension_id,
                    mode: guarded_by.payload_of().0,
                    payload: guarded_by.payload_of().1,
                },
            ),
    {
        if value.is_negative() {
            return Err(Error::InvalidAmount);
        }
        let (mode, payload) = guarded_by.to_payload();
        let out = TzeOut { value, precondition: Precondition { extension_id, mode, payload } };
        let taken = self.take();
        proof {
            use_type_invariant(&taken);
        }
        let TzeBuilder { signers, vin, mut vout } = taken;
        vout.push(out);
        *self = TzeBuilder { signers, vin, vout };
        assert(self.outputs() =~= old(self).outputs().push(out@));
        Ok(())
    }

    /// The value that the inputs bring less the value that the outputs take;
    /// none where a sum on the way is no amount.
    pub fn value_balance(&self) -> (r: Option<Amount>)
        ensures
            match balance(self.spent(), self.outputs()) {
                Some(b) => r is Some && r->Some_0@ == b,
                None => r is None,
            },
    {
        let ghost values = values_of(self.spent());
        let mut sum = Amount::zero();
        let mut i: usize = 0;
        assert(values.take(0) =~= Seq::<int>::empty());
        while i < self.signers.len()
            invariant
                i <= self.signers.len(),
                values == values_of(self.spent()),
                sum_amounts(values.take(i as int)) == Some(sum@),
            decreases self.signers.len() - i,
        {
            proof {
                assert(values.take(i + 1).drop_last() =~= values.take(i as int));
                assert(values.take(i + 1).last() == self.signers[i as int].prevout.value@);
            }
            match sum.checked_add(&self.signers[i].prevout.value) {
                Some(s) => {
                    sum = s;
                },
                None => {
                    proof {
                        lemma_sum_stays_none(values, i + 1);
                    }
                    return None;
                },
            }
            i += 1;
        }
        assert(values.take(i as int) =~= values);
        match sum_values(&self.vout) {
            Some(out) => sum.checked_sub(&out),
            None => None,
        }
    }

    /// Ends the collecting: the bundle of the inputs and outputs, without
    /// witnesses, and what is kept of the inputs; no bundle where there are
    /// neither inputs nor outputs.
    pub fn build(self) -> (r: (Option<Bundle<Unauthorized>>, Vec<TzeSigner<F>>))
        ensures
            self.inputs().len() == 0 && self.outputs().len() == 0 ==> r.0 is None && r.1@
                == Seq::<TzeSigner<F>>::empty(),
            self.inputs().len() > 0 || self.outputs().len() > 0 ==> r.0 is Some && r.0->Some_0.vin@
                == self.inputs() && r.0->Some_0.vout@.map_values(|o: TzeOut| o@) == self.outputs()
                && r.1@ == self.signers(),
            r.1@.len() == self.inputs().len(),
            r.0 is Some ==> r.1@.len() == r.0->Some_0.vin@.len(),
    {
        proof {
            use_type_invariant(&self);
        }
        if self.vin.len() == 0 && self.vout.len() == 0 {
            (None, Vec::new())
        } else {
            (
                Some(Bundle { vin: self.vin, vout: self.vout, authorization: Unauthorized {  } }),
                self.signers,
            )
        }
    }
}

/// What the builder of a witness gives: the mode and the payload of the
/// witness, or the error of the builder.
pub type Built = Result<(u32, Vec<u8>), Error>;

/// Why the witness that was built for an input of the mode `input_mode`
/// cannot be taken, if it cannot: the builder failed, or built for another mode.
pub open spec fn refusal(input_mode: u32, built: Built) -> Option<Error> {
    match built {
        Err(e) => Some(e),
        Ok((mode, _)) => if mode != input_mode {
            Some(Error::WitnessModeMismatch(input_mode, mode))
        } else {
            None
        },
    }
}

/// The number of inputs that have a built witness beside them.
pub open spec fn paired(vin: Seq<TzeIn<()>>, built: Seq<Built>) -> int {
    if vin.len() < built.len() {
        vin.len() as int
    } else {
        built.len() as int
    }
}

/// The first refusal among the inputs from the index `k` on.
pub open spec fn first_refusal(vin: Seq<TzeIn<()>>, built: Seq<Built>, k: int) -> Option<Error>
    decreases paired(vin, built) - k,
{
    if k < 0 || k >= paired(vin, built) {
        None
    } else {
        match refusal(vin[k].witness.mode, built[k]) {
            Some(e) => Some(e),
            None => first_refusal(vin, built, k + 1),
        }
    }
}

/// The inputs with the payloads of their witnesses.
pub open spec fn authorized_inputs(vin: Seq<TzeIn<()>>, built: Seq<Built>) -> Seq<AuthorizedInput> {
    Seq::new(
        paired(vin, built) as nat,
        |i: int|
            AuthorizedInput {
                prevout: vin[i].prevout,
                extension_id: vin[i].witness.extension_id,
                mode: vin[i].witness.mode,
                payload: built[i]->Ok_0.1@,
            },
    )
}

/// Whether `built` is the mode and payload of what a builder gave, or its error.
pub open spec fn converted<W: ToPayload>(outcome: Result<W, Error>, built: Built) -> bool {
    match outcome {
        Ok(witness) => built matches Ok((mode, payload)) && (mode, payload@)
            == witness.payload_of(),
        Err(e) => built == Err::<(u32, Vec<u8>), Error>(e),
    }
}

/// Whether `built` is what `builder` gave for the context `ctx`: the mode and
/// payload of the witness that it built, or its error.
pub open spec fn gave<BuildCtx, W: ToPayload, F: FnOnce(&BuildCtx) -> Result<W, Error>>(
    builder: F,
    ctx: &BuildCtx,
    built: Built,
) -> bool {
    exists|outcome: Result<W, Error>|
        #[trigger] call_ensures(builder, (ctx,), outcome) && converted(outcome, built)
}

/// Whether `built` is what the builders of `signers` gave for the context
/// `ctx`, called in their order, one for each input, until the first witness
/// that cannot be taken.
pub open spec fn built_by<BuildCtx, W: ToPayload, F: FnOnce(&BuildCtx) -> Result<W, Error>>(
    signers: Seq<TzeSigner<F>>,
    ctx: &BuildCtx,
    vin: Seq<TzeIn<()>>,
    built: Seq<Built>,
) -> bool {
    &&& built.len() <= signers.len()
    &&& built.len() <= vin.len()
    &&& forall|i: int| 0 <= i < built.len() ==> gave(signers[i].builder, ctx, #[trigger] built[i])
    &&& forall|i: int|
        0 <= i < built.len() - 1 ==> refusal(vin[i].witness.mode, #[trigger] built[i]) is None
    &&& (built.len() < signers.len() && built.len() < vin.len()) ==> built.len() > 0 && refusal(
        vin[built.len() - 1].witness.mode,
        built.last(),
    ) is Some
}

/// Copies a byte string.
fn copy_bytes(bytes: &Vec<u8>) -> (r: Vec<u8>)
    ensures
        r@ == bytes@,
{
    let mut out: Vec<u8> = Vec::new();
    let mut i: usize = 0;
    while i < bytes.len()
        invariant
            i <= bytes.len(),
            out@ == bytes@.take(i as int),
        decreases bytes.len() - i,
    {
        out.push(bytes[i]);
        assert(bytes@.take(i + 1) =~= bytes@.take(i as int).push(bytes@[i as int]));
        i += 1;
    }
    assert(bytes@.take(i as int) =~= bytes@);
    out
}

impl Bundle<Unauthorized> {
    /// Gives each input the witness that was built for it: the first witness,
    /// in the order of the inputs, that its builder failed to build or built
    /// for another mode than the input's ends the work with its error; where
    /// there is none, the inputs carry the payloads of their witnesses, and
    /// the outputs stay.
    pub fn authorize(self, built: &Vec<Built>) -> (r: Result<Bundle<Authorized>, Error>)
        ensures
            match first_refusal(self.vin@, built@, 0) {
                Some(e) => r == Err::<Bundle<Authorized>, Error>(e),
                None => r is Ok && r->Ok_0.vin@.map_values(|i: TzeIn<AuthData>| i@)
                    == authorized_inputs(self.vin@, built@) && r->Ok_0.vout@ == self.vout@,
            },
    {
        let n = if self.vin.len() < built.len() {
            self.vin.len()
        } else {
            built.len()
        };
        let mut vin: Vec<TzeIn<AuthData>> = Vec::new();
        let mut i: usize = 0;
        while i < n
            invariant
                i <= n,
                n == paired(self.vin@, built@),
                first_refusal(self.vin@, built@, 0) == first_refusal(self.vin@, built@, i as int),
                vin@.len() == i,
                forall|k: int|
                    0 <= k < i ==> (#[trigger] vin@[k])@ == authorized_inputs(self.vin@, built@)[k],
            decreases n - i,
        {
            let input_mode = self.vin[i].witness.mode;
            match &built[i] {
                Err(e) => {
                    return Err(*e);
                },
                Ok((mode, payload)) => {
                    if *mode != input_mode {
                        return Err(Error::WitnessModeMismatch(input_mode, *mode));
                    }
                    vin.push(
                        TzeIn {
                            prevout: self.vin[i].prevout,
                            witness: Witness {
                                extension_id: self.vin[i].witness.extension_id,
                                mode: input_mode,
                                payload: AuthData(copy_bytes(payload)),
                            },
                        },
                    );
                },
            }
            i += 1;
        }
        assert(vin@.map_values(|i: TzeIn<AuthData>| i@) =~= authorized_inputs(self.vin@, built@));
        Ok(Bundle { vin, vout: self.vout, authorization: Authorized {  } })
    }

    /// Builds the witnesses of the inputs for the transaction `unauthed_tx`
    /// and gives each input its witness: the builders are called in the order
    /// of the inputs, until one fails or builds for another mode than its
    /// input's; each witness that is built is turned into its mode and
    /// payload, and the outcome is that of `authorize` on what they gave.
    pub fn into_authorized<BuildCtx, W: ToPayload, F: FnOnce(&BuildCtx) -> Result<W, Error>>(
        self,
        unauthed_tx: &BuildCtx,
        signers: Vec<TzeSigner<F>>,
    ) -> (r: Result<Bundle<Authorized>, Error>)
        requires
            forall|i: int|
                0 <= i < signers.len() ==> call_requires(
                    (#[trigger] signers[i]).builder,
                    (unauthed_tx,),
                ),
        ensures
            exists|built: Seq<Built>|
                {
                    &&& #[trigger] built_by(signers@, unauthed_tx, self.vin@, built)
                    &&& match first_refusal(self.vin@, built, 0) {
                        Some(e) => r == Err::<Bundle<Authorized>, Error>(e),
                        None => r is Ok && r->Ok_0.vin@.map_values(|i: TzeIn<AuthData>| i@)
                            == authorized_inputs(self.vin@, built) && r->Ok_0.vout@ == self.vout@,
                    }
                },
    {
        let mut signers = signers;
        let ghost all = signers@;
        let mut built: Vec<Built> = Vec::new();
        let mut stopped = false;
        while signers.len() > 0 && built.len() < self.vin.len() && !stopped
            invariant
                built.len() + signers.len() == all.len(),
                signers@ == all.skip(built.len() as int),
                built.len() <= self.vin.len(),
                forall|i: int|
                    0 <= i < all.len() ==> call_requires(
                        (#[trigger] all[i]).builder,
                        (unauthed_tx,),
                    ),
                forall|i: int|
                    0 <= i < built.len() ==> gave(all[i].builder, unauthed_tx, #[trigger] built@[i]),
                forall|i: int|
                    0 <= i < built.len() - 1 ==> refusal(
                        self.vin@[i].witness.mode,
                        #[trigger] built@[i],
                    ) is None,
                !stopped && built.len() > 0 ==> refusal(
                    self.vin@[built.len() - 1].witness.mode,
                    built@.last(),
                ) is None,
                stopped ==> built.len() > 0 && refusal(
                    self.vin@[built.len() - 1].witness.mode,
                    built@.last(),
                ) is Some,
            decreases signers.len() + if stopped { 0int } else { 1int },
        {
            let signer = signers.remove(0);
            assert(signer == all[built.len() as int]);
            let input_mode = self.vin[built.len()].witness.mode;
            let build = signer.builder;
            let outcome = build(unauthed_tx);
            let ghost given = outcome;
            let payload: Built = match outcome {
                Ok(witness) => Ok(witness.to_payload()),
                Err(e) => Err(e),
            };
            assert(converted(given, payload));
            assert(gave(all[built.len() as int].builder, unauthed_tx, payload));
            stopped = match &payload {
                Err(_) => true,
                Ok((mode, _)) => *mode != input_mode,
            };
            built.push(payload);
            assert(signers@ =~= all.skip(built.len() as int));
        }
        assert(built_by(all, unauthed_tx, self.vin@, built@));
        self.authorize(&built)
    }
}

/// The text of an error of the builder.
pub open spec fn builder_error_text(e: Error) -> Seq<char> {
    match e {
        Error::InvalidAmount => "Invalid amount"@,
        Error::WitnessModeMismatch(expected, actual) =>
            "TZE witness builder returned a mode that did not match the mode with which the input was initially constructed: expected = "@
                + decimal(expected as nat) + ", actual = "@ + decimal(actual as nat),
    }
}

impl Error {
    /// The text of this error.
    pub fn to_string(&self) -> (r: String)
        ensures
            r@ == builder_error_text(*self),
    {
        match self {
            Error::InvalidAmount => String::from_str("Invalid amount"),
            Error::WitnessModeMismatch(expected, actual) => {
                let mut s = String::from_str(
                    "TZE witness builder returned a mode that did not match the mode with which the input was initially constructed: expected = ",
                );
                push_decimal(&mut s, *expected as u64);
                s.append(", actual = ");
                push_decimal(&mut s, *actual as u64);
                s
            },
        }
    }
}

} // verus!
