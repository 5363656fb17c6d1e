use zcash_light_client::primitives::{Amount, TxId};
use zcash_light_client::tze::builder::{Built, Error, TzeBuilder, TzeSigner, Unauthorized};
use zcash_light_client::tze::{
    AuthData, Bundle, OutPoint, Precondition, ToPayload, TzeIn, TzeOut, Witness,
};

type Ctx = u32;
type Builder = fn(&Ctx) -> Result<Witness<AuthData>, Error>;

fn out(value: i64, mode: u32) -> TzeOut {
    TzeOut {
        value: Amount::from_i64(value).unwrap(),
        precondition: Precondition { extension_id: 7, mode, payload: vec![1, 2, 3] },
    }
}

fn outpoint(n: u32) -> OutPoint {
    OutPoint::new(TxId([n as u8; 32]), n)
}

fn open_mode(ctx: &Ctx) -> Result<Witness<AuthData>, Error> {
    Ok(Witness { extension_id: 7, mode: 0, payload: AuthData(vec![*ctx as u8]) })
}

fn close_mode(ctx: &Ctx) -> Result<Witness<AuthData>, Error> {
    Ok(Witness { extension_id: 9, mode: 1, payload: AuthData(vec![*ctx as u8, 0xff]) })
}

fn failing(_ctx: &Ctx) -> Result<Witness<AuthData>, Error> {
    Err(Error::InvalidAmount)
}

#[test]
fn empty_builder_builds_nothing() {
    let builder = TzeBuilder::<Builder>::empty();
    assert_eq!(builder.value_balance(), Some(Amount::zero()));
    let (bundle, signers) = builder.build();
    assert!(bundle.is_none());
    assert!(signers.is_empty());
}

#[test]
fn outputs_must_not_be_negative() {
    let mut builder = TzeBuilder::<Builder>::empty();
    let guard = Precondition { extension_id: 7, mode: 1, payload: vec![9, 9] };
    assert_eq!(guard.to_payload(), (1, vec![9, 9]));
    let witness = Witness { extension_id: 7, mode: 2, payload: AuthData(vec![4]) };
    assert_eq!(witness.to_payload(), (2, vec![4]));
    assert_eq!(
        builder.add_output(7, Amount::from_i64(-1).unwrap(), &guard),
        Err(Error::InvalidAmount)
    );
    assert_eq!(builder.add_output(7, Amount::zero(), &guard), Ok(()));
    assert_eq!(builder.add_output(8, Amount::from_i64(40).unwrap(), &guard), Ok(()));
    let (bundle, signers) = builder.build();
    let bundle = bundle.unwrap();
    assert!(signers.is_empty());
    assert!(bundle.vin.is_empty());
    assert_eq!(bundle.authorization, Unauthorized {});
    assert_eq!(
        bundle.vout,
        vec![
            TzeOut {
                value: Amount::zero(),
                precondition: Precondition { extension_id: 7, mode: 1, payload: vec![9, 9] }
            },
            TzeOut {
                value: Amount::from_i64(40).unwrap(),
                precondition: Precondition { extension_id: 8, mode: 1, payload: vec![9, 9] }
            },
        ]
    );
}

#[test]
fn value_balance_is_inputs_less_outputs() {
    let mut builder = TzeBuilder::<Builder>::empty();
    builder.add_input(7, 0, (outpoint(1), out(100, 0)), open_mode);
    builder.add_input(7, 1, (outpoint(2), out(25, 1)), close_mode);
    let guard = Precondition { extension_id: 7, mode: 0, payload: vec![] };
    builder.add_output(7, Amount::from_i64(60).unwrap(), &guard).unwrap();
    assert_eq!(builder.value_balance(), Some(Amount::from_i64(65).unwrap()));
    builder.add_output(7, Amount::from_i64(100).unwrap(), &guard).unwrap();
    assert_eq!(builder.value_balance(), Some(Amount::from_i64(-35).unwrap()));

    // A sum that leaves the range of amounts on the way is none, whatever follows.
    let max = 2_100_000_000_000_000;
    let mut big = TzeBuilder::<Builder>::empty();
    big.add_input(7, 0, (outpoint(1), out(max, 0)), open_mode);
    assert_eq!(big.value_balance(), Some(Amount::from_i64(max).unwrap()));
    big.add_input(7, 0, (outpoint(2), out(1, 0)), open_mode);
    assert_eq!(big.value_balance(), None);
    big.add_input(7, 0, (outpoint(3), out(-5, 0)), open_mode);
    assert_eq!(big.value_balance(), None);

    // Sums that are amounts, with a difference that is none.
    let mut apart = TzeBuilder::<Builder>::empty();
    apart.add_input(7, 0, (outpoint(1), out(-max, 0)), open_mode);
    apart.add_output(7, Amount::from_i64(1).unwrap(), &guard).unwrap();
    assert_eq!(apart.value_balance(), None);
}

fn two_inputs(second: Builder) -> (Bundle<Unauthorized>, Vec<TzeSigner<Builder>>) {
    let mut builder = TzeBuilder::<Builder>::empty();
    builder.add_input(7, 0, (outpoint(1), out(100, 0)), open_mode);
    builder.add_input(9, 1, (outpoint(2), out(25, 1)), second);
    let guard = Precondition { extension_id: 7, mode: 0, payload: vec![4] };
    builder.add_output(7, Amount::from_i64(60).unwrap(), &guard).unwrap();
    let (bundle, signers) = builder.build();
    (bundle.unwrap(), signers)
}

#[test]
fn witnesses_are_built_and_checked_against_the_modes() {
    let (bundle, signers) = two_inputs(close_mode);
    assert_eq!(
        bundle.vin,
        vec![TzeIn::new(outpoint(1), 7, 0), TzeIn::new(outpoint(2), 9, 1)]
    );
    assert_eq!(signers.len(), 2);
    assert_eq!(signers[1].prevout, out(25, 1));
    let vout = bundle.vout.clone();
    let authorized = bundle.into_authorized(&5, signers).unwrap();
    assert_eq!(authorized.vout, vout);
    assert_eq!(authorized.vin.len(), 2);
    assert_eq!(authorized.vin[0].prevout, outpoint(1));
    assert_eq!(
        authorized.vin[0].witness,
        Witness {
            extension_id: 7,
            mode: 0,
            payload: AuthData(vec![5])
        }
    );
    assert_eq!(
        authorized.vin[1].witness,
        Witness {
            extension_id: 9,
            mode: 1,
            payload: AuthData(vec![5, 0xff])
        }
    );
}

#[test]
fn a_witness_for_another_mode_is_refused() {
    let (bundle, signers) = two_inputs(open_mode);
    match bundle.into_authorized(&5, signers) {
        Err(e) => {
            assert_eq!(e, Error::WitnessModeMismatch(1, 0));
            assert_eq!(
                e.to_string(),
                "TZE witness builder returned a mode that did not match the mode with which the input was initially constructed: expected = 1, actual = 0"
            );
        }
        Ok(_) => panic!(),
    }
    let (bundle, signers) = two_inputs(failing);
    match bundle.into_authorized(&5, signers) {
        Err(e) => {
            assert_eq!(e, Error::InvalidAmount);
            assert_eq!(e.to_string(), "Invalid amount");
        }
        Ok(_) => panic!(),
    }
}

#[test]
fn authorize_takes_the_first_refusal() {
    let (bundle, _) = two_inputs(close_mode);
    let built: Vec<Built> = vec![Ok((3, vec![1])), Err(Error::InvalidAmount)];
    assert!(matches!(bundle.authorize(&built), Err(Error::WitnessModeMismatch(0, 3))));
    let (bundle, _) = two_inputs(close_mode);
    let built: Vec<Built> = vec![Ok((0, vec![1])), Err(Error::InvalidAmount)];
    assert!(matches!(bundle.authorize(&built), Err(Error::InvalidAmount)));
    // With one witness only, one input is authorized.
    let (bundle, _) = two_inputs(close_mode);
    let built: Vec<Built> = vec![Ok((0, vec![1]))];
    let authorized = bundle.authorize(&built).unwrap();
    assert_eq!(authorized.vin.len(), 1);
    assert_eq!(authorized.vin[0].witness.payload.0, vec![1]);
    assert_eq!(authorized.vout.len(), 1);
}
