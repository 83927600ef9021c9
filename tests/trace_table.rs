use keccak_machine::chips::range_checker::RangeCheckerChip;
use keccak_machine::interaction::{PairCol, VirtualPairCol};
use keccak_machine::trace::Trace;

#[test]
fn test_trace_allocate_read_write() {
    let mut t = Trace::new_zeroed(4, 3);
    assert_eq!(t.width, 3);
    assert_eq!(t.values, vec![0; 12]);
    t.set(2, 1, 9);
    assert_eq!(t.get(2, 1), 9);
    assert_eq!(t.values[7], 9);
    t.push_row(&vec![1, 2, 3]);
    assert_eq!(t.get(4, 2), 3);
}

#[test]
fn test_virtual_columns() {
    let vc = VirtualPairCol::sum_main(vec![0, 2]);
    assert_eq!(vc.column_weights, vec![(PairCol::Main(0), 1), (PairCol::Main(2), 1)]);
    assert_eq!(vc.apply(&vec![], &vec![5, 100, 7]), 12);
    let vc = VirtualPairCol::new_main(vec![(1, 3)], 4);
    assert_eq!(vc.apply(&vec![], &vec![0, 10]), 34);
    let vc = VirtualPairCol::single_preprocessed(0);
    assert_eq!(vc.apply(&vec![42], &vec![1]), 42);
    let vc = VirtualPairCol::constant(2013265920);
    assert_eq!(vc.apply(&vec![], &vec![]), 2013265920);
    let vc = VirtualPairCol::new_main(vec![(0, 2)], 2013265920);
    assert_eq!(vc.apply(&vec![], &vec![1]), 1);
}

#[test]
fn test_range_checker_widths_and_interaction() {
    let chip = RangeCheckerChip::<256> { bus_range_8: 6 };
    assert_eq!(chip.width(), 1);
    assert_eq!(chip.preprocessed_width(), 1);
    let recv = chip.receives();
    assert_eq!(recv[0].argument_index, 6);
    assert_eq!(recv[0].fields[0].apply(&vec![17], &vec![3]), 17);
    assert_eq!(recv[0].count.apply(&vec![17], &vec![3]), 3);
}
