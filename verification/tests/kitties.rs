use nft_ledger::kitties::{
    combine_dna, get_mock_uri_dna_data, random_value, set_mock_uri_dna_data, Kitty,
};
use nft_ledger::nfts::{TokenLedger, NFTS};
use nft_ledger::types::{Error, Event};

const ALICE: u64 = 10;
const BOB: u64 = 11;

#[test]
fn combine_dna_takes_each_bit_from_the_selected_parent() {
    assert_eq!(combine_dna(0xff, 0x00, 0xf0), 0xf0);
    assert_eq!(combine_dna(0x00, 0xff, 0xf0), 0x0f);
    assert_eq!(combine_dna(0b1010_1010, 0b0101_0101, 0b1100_0011), 0b1001_0110);
    assert_eq!(combine_dna(0x12, 0x34, 0xff), 0x12);
    assert_eq!(combine_dna(0x12, 0x34, 0x00), 0x34);
    for a in [0u8, 1, 0x5a, 0xff] {
        for s in [0u8, 0x0f, 0x80, 0xff] {
            assert_eq!(combine_dna(a, a, s), a);
        }
    }
}

#[test]
fn a_genome_survives_the_way_through_the_payload() {
    let dna: [u8; 16] = [1, 2, 3, 4, 5, 6, 7, 8, 9, 10, 11, 12, 13, 14, 15, 16];
    let uri = set_mock_uri_dna_data(dna);
    assert_eq!(uri, dna.to_vec());
    assert_eq!(get_mock_uri_dna_data(uri), dna);
}

#[test]
fn a_short_payload_is_filled_with_zeros_and_a_long_one_is_cut() {
    assert_eq!(get_mock_uri_dna_data(vec![]), [0u8; 16]);
    assert_eq!(
        get_mock_uri_dna_data(vec![7, 8, 9]),
        [7, 8, 9, 0, 0, 0, 0, 0, 0, 0, 0, 0, 0, 0, 0, 0]
    );
    let long: Vec<u8> = (1..=20).collect();
    assert_eq!(
        get_mock_uri_dna_data(long),
        [1, 2, 3, 4, 5, 6, 7, 8, 9, 10, 11, 12, 13, 14, 15, 16]
    );
}

#[test]
fn random_value_is_the_digest_of_the_encoded_input() {
    assert_eq!(
        random_value(&[7u8; 32], &1, Some(2), 3),
        [115, 13, 97, 46, 12, 135, 151, 142, 81, 230, 253, 96, 156, 87, 95, 9]
    );
    assert_eq!(
        random_value(&[0u8; 32], &0, None, 0),
        [106, 29, 110, 203, 176, 80, 51, 241, 175, 97, 22, 52, 134, 234, 215, 180]
    );
    let mut seed = [0u8; 32];
    for (i, byte) in seed.iter_mut().enumerate() {
        *byte = i as u8;
    }
    assert_eq!(
        random_value(&seed, &0x0102030405060708, Some(0x0a0b0c0d), 0x1112131415161718),
        [82, 172, 78, 166, 200, 238, 207, 105, 112, 80, 65, 225, 192, 78, 123, 37]
    );
}

#[test]
fn random_value_depends_on_each_input() {
    let base = random_value(&[7u8; 32], &1, Some(2), 3);
    assert_eq!(base, random_value(&[7u8; 32], &1, Some(2), 3));
    assert_ne!(base, random_value(&[8u8; 32], &1, Some(2), 3));
    assert_ne!(base, random_value(&[7u8; 32], &2, Some(2), 3));
    assert_ne!(base, random_value(&[7u8; 32], &1, Some(3), 3));
    assert_ne!(base, random_value(&[7u8; 32], &1, None, 3));
    assert_ne!(base, random_value(&[7u8; 32], &1, Some(2), 4));
}

#[test]
fn create_issues_a_kitty_with_its_genome() {
    let mut ledger = TokenLedger::new();
    let dna = [0xabu8; 16];
    assert_eq!(ledger.next_kitty_id(), Ok(0));
    assert_eq!(ledger.create(&ALICE, dna), Ok(0));
    assert_eq!(ledger.next_kitty_id(), Ok(1));
    assert_eq!(ledger.kitty(0), Some(Kitty(dna)));
    assert_eq!(ledger.kitty(1), None);
    assert_eq!(ledger.owner_of(0), Some(ALICE));
    assert_eq!(ledger.token_uri(0), dna.to_vec());
    assert_eq!(ledger.tokens_of(&ALICE), vec![0]);
    assert_eq!(ledger.take_events(), vec![Event::Transfer(None, Some(ALICE), 0)]);
}

#[test]
fn create_stops_at_the_id_bound() {
    let mut ledger = TokenLedger::with_id_bound(2);
    assert_eq!(ledger.create(&ALICE, [1u8; 16]), Ok(0));
    assert_eq!(ledger.create(&ALICE, [2u8; 16]), Ok(1));
    assert_eq!(ledger.next_kitty_id(), Err(Error::IdCounterExhausted));
    assert_eq!(ledger.create(&ALICE, [3u8; 16]), Err(Error::IdCounterExhausted));
    assert_eq!(ledger.total_supply(), 2);
    assert_eq!(ledger.balance_of(&ALICE), 2);
    assert_eq!(ledger.kitty(2), None);
}

#[test]
fn breeding_mixes_the_parents_under_the_selector() {
    let mut ledger = TokenLedger::new();
    assert_eq!(ledger.create(&ALICE, [0xffu8; 16]), Ok(0));
    assert_eq!(ledger.create(&ALICE, [0x00u8; 16]), Ok(1));
    let supply = ledger.total_supply();
    ledger.take_events();
    assert_eq!(ledger.do_breed(&ALICE, 0, 1, [0xf0u8; 16]), Ok(2));
    assert_eq!(ledger.kitty(2), Some(Kitty([0xf0u8; 16])));
    assert_eq!(ledger.total_supply(), supply + 1);
    assert_eq!(ledger.owner_of(2), Some(ALICE));
    assert_eq!(ledger.balance_of(&ALICE), 3);
    assert_eq!(ledger.tokens_of(&ALICE), vec![0, 1, 2]);
    assert_eq!(ledger.take_events(), vec![Event::Transfer(None, Some(ALICE), 2)]);
    // The other way round the child gets the other half of each byte.
    assert_eq!(ledger.do_breed(&ALICE, 1, 0, [0xf0u8; 16]), Ok(3));
    assert_eq!(ledger.kitty(3), Some(Kitty([0x0fu8; 16])));
}

#[test]
fn breeding_works_byte_by_byte() {
    let mut ledger = TokenLedger::new();
    let mother: [u8; 16] = [1, 2, 3, 4, 5, 6, 7, 8, 9, 10, 11, 12, 13, 14, 15, 16];
    let father: [u8; 16] = [0xf0; 16];
    let mut selector = [0u8; 16];
    for (i, byte) in selector.iter_mut().enumerate() {
        *byte = if i % 2 == 0 { 0xff } else { 0x0f };
    }
    ledger.create(&ALICE, mother).unwrap();
    ledger.create(&ALICE, father).unwrap();
    assert_eq!(ledger.do_breed(&ALICE, 0, 1, selector), Ok(2));
    let Kitty(child) = ledger.kitty(2).unwrap();
    for i in 0..16 {
        assert_eq!(child[i], combine_dna(mother[i], father[i], selector[i]));
    }
    assert_eq!(child[0], 1);
    assert_eq!(child[1], 0xf2);
}

#[test]
fn breeding_a_kitty_with_itself_fails_without_minting() {
    let mut ledger = TokenLedger::new();
    assert_eq!(ledger.create(&ALICE, [1u8; 16]), Ok(0));
    ledger.take_events();
    assert_eq!(ledger.do_breed(&ALICE, 0, 0, [0u8; 16]), Err(Error::IdenticalParents));
    assert_eq!(ledger.total_supply(), 1);
    assert_eq!(ledger.balance_of(&ALICE), 1);
    assert_eq!(ledger.nonce(), 1);
    assert_eq!(ledger.take_events(), Vec::<Event>::new());
}

#[test]
fn breeding_needs_two_living_parents() {
    let mut ledger = TokenLedger::new();
    assert_eq!(ledger.create(&ALICE, [1u8; 16]), Ok(0));
    assert_eq!(ledger.do_breed(&ALICE, 0, 5, [0u8; 16]), Err(Error::InvalidParent));
    assert_eq!(ledger.do_breed(&ALICE, 5, 0, [0u8; 16]), Err(Error::InvalidParent));
    // A missing parent is found before anything else is looked at.
    assert_eq!(ledger.do_breed(&ALICE, 5, 5, [0u8; 16]), Err(Error::InvalidParent));
    assert_eq!(ledger.total_supply(), 1);
}

#[test]
fn breeding_needs_the_owner_of_both_parents() {
    let mut ledger = TokenLedger::new();
    assert_eq!(ledger.create(&ALICE, [1u8; 16]), Ok(0));
    assert_eq!(ledger.create(&BOB, [2u8; 16]), Ok(1));
    assert_eq!(ledger.create(&ALICE, [3u8; 16]), Ok(2));
    assert_eq!(ledger.do_breed(&ALICE, 0, 1, [0u8; 16]), Err(Error::NotOwner));
    assert_eq!(ledger.do_breed(&ALICE, 1, 0, [0u8; 16]), Err(Error::NotOwner));
    assert_eq!(ledger.do_breed(&BOB, 0, 2, [0u8; 16]), Err(Error::NotOwner));
    assert_eq!(ledger.total_supply(), 3);
    assert_eq!(ledger.transfer_from(BOB, ALICE, 1), Ok(()));
    assert_eq!(ledger.do_breed(&ALICE, 0, 1, [0u8; 16]), Ok(3));
}

#[test]
fn create_looks_at_the_id_counter_first() {
    // The account holds every token, so its balance is at the bound too.
    let mut ledger = TokenLedger::with_id_bound(1);
    assert_eq!(ledger.create(&ALICE, [1u8; 16]), Ok(0));
    assert_eq!(ledger.create(&ALICE, [2u8; 16]), Err(Error::IdCounterExhausted));
    assert_eq!(ledger._issue_with_uri(&ALICE, vec![2u8; 16]), Err(Error::BalanceOverflow));
    assert_eq!(ledger.total_supply(), 1);
}

#[test]
fn breeding_stops_at_the_id_bound() {
    let mut ledger = TokenLedger::with_id_bound(2);
    assert_eq!(ledger.create(&ALICE, [1u8; 16]), Ok(0));
    assert_eq!(ledger.create(&ALICE, [2u8; 16]), Ok(1));
    assert_eq!(ledger.do_breed(&ALICE, 0, 1, [0u8; 16]), Err(Error::IdCounterExhausted));
    assert_eq!(ledger.total_supply(), 2);
}

#[test]
fn a_selector_from_random_value_breeds_a_child() {
    let mut ledger = TokenLedger::new();
    ledger.create(&ALICE, [0xffu8; 16]).unwrap();
    ledger.create(&ALICE, [0x00u8; 16]).unwrap();
    let selector = random_value(&[7u8; 32], &ALICE, Some(0), 1);
    assert_eq!(ledger.do_breed(&ALICE, 0, 1, selector), Ok(2));
    // With these parents the child is the selector itself.
    assert_eq!(ledger.kitty(2), Some(Kitty(selector)));
}
