use ritcoin::transaction::Output;
use ritcoin::utxo_set::UtxoSet;

const PK_HASH: [u8; 20] = [0xAA; 20];

fn set_with_amounts(amounts: &[u64]) -> UtxoSet {
    let mut set = UtxoSet::new();
    let outputs: Vec<Output> = amounts.iter().map(|a| Output::create(*a, &PK_HASH)).collect();
    set.add_unspent(&outputs, vec![1u8; 32]);
    set
}

fn selected_amounts(set: &UtxoSet, target: u64) -> Option<Vec<u64>> {
    set.get_used_utxos(&PK_HASH, target, &vec![]).map(|utxos| {
        utxos.iter().map(|u| u.get_output().get_amount()).collect()
    })
}

#[test]
fn exact_match_is_chosen_alone() {
    let set = set_with_amounts(&[30, 50, 70]);
    assert_eq!(selected_amounts(&set, 50), Some(vec![50]));
}

#[test]
fn exact_sum_subset_is_chosen_over_larger_single() {
    let set = set_with_amounts(&[20, 30]);
    assert_eq!(selected_amounts(&set, 50), Some(vec![20, 30]));
}

#[test]
fn single_utxo_above_target_is_chosen() {
    let set = set_with_amounts(&[100]);
    assert_eq!(selected_amounts(&set, 50), Some(vec![100]));
}

#[test]
fn smallest_utxo_above_target_is_chosen() {
    let set = set_with_amounts(&[200, 60, 150]);
    assert_eq!(selected_amounts(&set, 50), Some(vec![60]));
}

#[test]
fn accumulation_returns_ascending_prefix() {
    let set = set_with_amounts(&[10, 10, 10]);
    assert_eq!(selected_amounts(&set, 25), Some(vec![10, 10, 10]));
}

#[test]
fn insufficient_total_fails() {
    let set = set_with_amounts(&[10, 10]);
    assert_eq!(selected_amounts(&set, 25), None);
}

#[test]
fn utxos_of_other_owners_are_ignored() {
    let mut set = UtxoSet::new();
    let other = [0xBB; 20];
    let outputs = vec![Output::create(500, &other)];
    set.add_unspent(&outputs, vec![2u8; 32]);
    assert_eq!(selected_amounts(&set, 50), None);
}

#[test]
fn reservation_is_keyed_by_the_full_outpoint() {
    // Two outputs of one transaction; a prepared spend of output 0 must not
    // reserve output 1.
    let mut set = UtxoSet::new();
    let outputs = vec![Output::create(30, &PK_HASH), Output::create(40, &PK_HASH)];
    set.add_unspent(&outputs, vec![7u8; 32]);
    let first = set.get_used_utxos(&PK_HASH, 30, &vec![]).unwrap();
    assert_eq!(first[0].get_index(), 0);
    let inputs = ritcoin::transaction::Input::create_inputs(&first);
    let spend_of_output_zero = ritcoin::transaction::Transaction::new(inputs, vec![]);
    let second = set.get_used_utxos(&PK_HASH, 40, &vec![spend_of_output_zero]);
    assert_eq!(
        second.map(|utxos| utxos.iter().map(|u| u.get_index()).collect::<Vec<u32>>()),
        Some(vec![1])
    );
}
