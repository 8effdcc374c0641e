use incrementer::decision::{Action, Incrementer, Verdict};

#[test]
fn undecoded_proof_ends_the_check() {
    let contract = Incrementer::default();
    let decoded: Result<Vec<u8>, String> = Err(String::from("unexpected end of input"));
    match contract.verify(3, 7, decoded) {
        Action::Finish(verdict) => assert_eq!(verdict, Verdict::Malformed),
        Action::Check { .. } => panic!("nothing may be checked when the proof did not decode"),
    }
}

#[test]
fn decoded_proof_goes_to_the_engine_with_widened_inputs() {
    let contract = Incrementer::default();
    let decoded: Result<Vec<u8>, String> = Ok(vec![1u8, 2, 3]);
    match contract.verify(3, 200, decoded) {
        Action::Check { proof, inputs } => {
            assert_eq!(proof, vec![1u8, 2, 3]);
            assert_eq!(inputs.start.as_int(), 3);
            assert_eq!(inputs.result.as_int(), 200);
        }
        Action::Finish(_) => panic!("a decoded proof must be checked"),
    }
}

#[test]
fn verdict_follows_the_engine() {
    let contract = Incrementer::default();
    let found_no_fault: Result<(), String> = Ok(());
    let found_a_fault: Result<(), String> = Err(String::from("inconsistent evaluations"));
    assert_eq!(contract.conclude(found_no_fault), Verdict::Accepted);
    assert_eq!(contract.conclude(found_a_fault), Verdict::Rejected);
}

#[test]
fn calls_are_independent() {
    let contract = Incrementer::default();
    let first = matches!(contract.verify(1, 2, Err::<u8, u8>(0)), Action::Finish(Verdict::Malformed));
    let second = matches!(contract.verify(1, 2, Ok::<u8, u8>(0)), Action::Check { .. });
    let third = matches!(contract.verify(1, 2, Err::<u8, u8>(0)), Action::Finish(Verdict::Malformed));
    assert!(first && second && third);
}
