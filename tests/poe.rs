use kitties::poe::{Config, Error, Event, Origin, Pallet};

fn new_registry() -> Pallet {
    Pallet::new(Config { max_claim_length: 512 })
}

#[test]
fn created_claim_works() {
    let mut p = new_registry();
    let claim: Vec<u8> = vec![0, 1];
    assert_eq!(p.created_claim(Origin::Signed(1), claim.clone()), Ok(()));

    assert_eq!(p.proofs(&claim), Some((1, p.block_number())));
}

#[test]
fn create_claim_failed_when_claim_already_exist() {
    let mut p = new_registry();
    let claim: Vec<u8> = vec![0, 1];
    let _ = p.created_claim(Origin::Signed(1), claim.clone());
    let before = p.proofs(&claim);
    let events_before = p.events().len();

    assert_eq!(
        p.created_claim(Origin::Signed(1), claim.clone()),
        Err(Error::ProofAlreadyExist)
    );
    assert_eq!(p.proofs(&claim), before);
    assert_eq!(p.events().len(), events_before);
}

#[test]
fn revoke_claim_works() {
    let mut p = new_registry();
    let claim: Vec<u8> = vec![0, 1];
    let _ = p.created_claim(Origin::Signed(1), claim.clone());

    assert_eq!(p.revoke_claim(Origin::Signed(1), claim.clone()), Ok(()));
}

#[test]
fn create_claim_failed_when_is_not_exist() {
    let mut p = new_registry();
    let claim: Vec<u8> = vec![0, 1];

    assert_eq!(
        p.revoke_claim(Origin::Signed(1), claim.clone()),
        Err(Error::ClaimNotExist)
    );
    assert_eq!(p.proofs(&claim), None);
    assert!(p.events().is_empty());
}

#[test]
fn create_claim_failed_with_wrong_owner() {
    let mut p = new_registry();
    let claim: Vec<u8> = vec![0, 1];
    let _ = p.created_claim(Origin::Signed(1), claim.clone());

    assert_eq!(
        p.revoke_claim(Origin::Signed(2), claim.clone()),
        Err(Error::NotClaimOwner)
    );
    assert_eq!(p.proofs(&claim), Some((1, p.block_number())));
}

#[test]
fn transfer_claim_failed_when_is_not_exist() {
    let mut p = new_registry();
    let claim: Vec<u8> = vec![0, 1];

    assert_eq!(
        p.transfer_claim(Origin::Signed(1), claim.clone(), 2),
        Err(Error::ClaimNotExist)
    );
    assert_eq!(p.proofs(&claim), None);
}

#[test]
fn transfer_claim_failed_with_wrong_owner() {
    let mut p = new_registry();
    let claim: Vec<u8> = vec![0, 1];
    let _ = p.created_claim(Origin::Signed(2), claim.clone());

    assert_eq!(
        p.transfer_claim(Origin::Signed(1), claim.clone(), 2),
        Err(Error::NotClaimOwner)
    );
    assert_eq!(p.proofs(&claim), Some((2, p.block_number())));
}

#[test]
fn transfer_claim_works() {
    let mut p = new_registry();
    let claim: Vec<u8> = vec![0, 1];
    let _ = p.created_claim(Origin::Signed(1), claim.clone());

    assert_eq!(p.transfer_claim(Origin::Signed(1), claim.clone(), 2), Ok(()));

    assert_eq!(p.proofs(&claim), Some((2, p.block_number())));
}

#[test]
fn claim_round_trip_records_block_numbers() {
    let mut p = new_registry();
    let claim: Vec<u8> = vec![7, 7, 7];
    p.set_block_number(5);
    assert_eq!(p.created_claim(Origin::Signed(3), claim.clone()), Ok(()));
    assert_eq!(p.proofs(&claim), Some((3, 5)));

    p.set_block_number(9);
    assert_eq!(p.transfer_claim(Origin::Signed(3), claim.clone(), 4), Ok(()));
    assert_eq!(p.proofs(&claim), Some((4, 9)));

    assert_eq!(p.revoke_claim(Origin::Signed(3), claim.clone()), Err(Error::NotClaimOwner));
    assert_eq!(p.revoke_claim(Origin::Signed(4), claim.clone()), Ok(()));
    assert_eq!(p.proofs(&claim), None);
}

#[test]
fn each_success_announces_one_event() {
    let mut p = new_registry();
    let claim: Vec<u8> = vec![1, 2];
    let _ = p.created_claim(Origin::Signed(1), claim.clone());
    let _ = p.transfer_claim(Origin::Signed(1), claim.clone(), 2);
    let _ = p.revoke_claim(Origin::Signed(1), claim.clone());
    let _ = p.revoke_claim(Origin::Signed(2), claim.clone());
    assert_eq!(
        p.events().clone(),
        vec![
            Event::ClaimCreated(1, claim.clone()),
            Event::ClaimTransferred(1, claim.clone(), 2),
            Event::ClaimRevoked(2, claim.clone()),
        ]
    );
}

#[test]
fn unsigned_and_root_origins_are_refused() {
    let mut p = new_registry();
    let claim: Vec<u8> = vec![1];
    assert_eq!(p.created_claim(Origin::Unsigned, claim.clone()), Err(Error::BadOrigin));
    assert_eq!(p.created_claim(Origin::Root, claim.clone()), Err(Error::BadOrigin));
    assert_eq!(p.proofs(&claim), None);
}

#[test]
fn claims_over_the_bound_are_refused() {
    let mut p = Pallet::new(Config { max_claim_length: 2 });
    assert_eq!(p.created_claim(Origin::Signed(1), vec![1, 2]), Ok(()));
    assert_eq!(p.created_claim(Origin::Signed(1), vec![1, 2, 3]), Err(Error::ClaimTooLang));
    assert_eq!(p.proofs(&vec![1, 2, 3]), None);
}

#[test]
fn empty_claim_is_a_claim() {
    let mut p = new_registry();
    assert_eq!(p.created_claim(Origin::Signed(1), vec![]), Ok(()));
    assert_eq!(p.proofs(&vec![]), Some((1, 0)));
    assert_eq!(p.created_claim(Origin::Signed(2), vec![]), Err(Error::ProofAlreadyExist));
}
