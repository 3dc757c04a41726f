use square_array::ArrayFromDuplicatedRows;
use square_array::ArrayWithBoolIterMethods;
use square_array::ArrayWithBoolMaskMethods;
use square_array::InitValue;

#[test]
fn test_boolarray1() {
    let arr: Vec<bool> = (0usize..100).map(|v| v % 3 == 1).collect();

    assert!(arr.any() == true);
    assert!(arr.all() == false);
    assert!(arr.count() == (100 / 3));

    let expected: Vec<usize> = (0usize..100).filter(|v| v % 3 == 1).collect();
    assert!(arr.indices() == expected);
}

#[test]
fn test_boolmask1() {
    let mut arr: Vec<usize> = (0usize..100).collect();

    let answer: Vec<usize> = arr
        .iter()
        .map(|v| if *v % 3 == 1 { v * 3 } else { *v })
        .collect();
    let mask: Vec<bool> = arr.iter().map(|v| v % 3 == 1).collect();

    let triple = |v: usize| v * 3;
    mask.mask_apply_inplace(&mut arr, &triple);

    assert!(arr == answer);
}

#[test]
fn bool_queries_on_empty_array() {
    let arr: Vec<bool> = Vec::new();
    assert!(!arr.any());
    assert!(arr.all());
    assert_eq!(arr.count(), 0);
    assert!(arr.indices().is_empty());
}

#[test]
fn bool_queries_on_all_true() {
    let arr = vec![true, true, true];
    assert!(arr.any());
    assert!(arr.all());
    assert_eq!(arr.count(), 3);
    assert_eq!(arr.indices(), vec![0, 1, 2]);
}

#[test]
fn mask_leaves_unmasked_elements_alone() {
    let mask = vec![false, true, false, true];
    let mut data = vec![10usize, 20, 30, 40];
    let bump = |v: usize| v + 1;
    mask.mask_apply_inplace(&mut data, &bump);
    assert_eq!(data, vec![10, 21, 30, 41]);
}

#[test]
fn duplicated_rows_build_a_matrix() {
    let row = vec![3usize, 1, 4];
    let m: Vec<Vec<usize>> = ArrayFromDuplicatedRows::from_duplicated_rows(&row, 4);
    assert_eq!(m.len(), 4);
    for r in &m {
        assert_eq!(*r, row);
    }
    let empty: Vec<Vec<usize>> = ArrayFromDuplicatedRows::from_duplicated_rows(&row, 0);
    assert!(empty.is_empty());
}

#[test]
fn init_values_are_neutral() {
    assert_eq!(usize::init_value(), 0);
    assert_eq!(u8::init_value(), 0);
    assert_eq!(u64::init_value(), 0);
    assert_eq!(i32::init_value(), 0);
    assert_eq!(i128::init_value(), 0);
    assert_eq!(bool::init_value(), false);
    assert_eq!(String::init_value(), String::new());
    assert_eq!(Vec::<u8>::init_value(), Vec::<u8>::new());
    assert_eq!(Option::<u32>::init_value(), None);
}
