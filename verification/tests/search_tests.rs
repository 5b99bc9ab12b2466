use sorted_search::{
    binary_search_safe, binary_search_unchecked, generate_sorted_int_vec,
    generate_sorted_string_vec, label_string,
};

#[test]
fn int_example_target_seven() {
    let data = generate_sorted_int_vec(10);
    let target: i32 = 7;
    assert_eq!(binary_search_safe(&data, &target), Some(7));
    assert_eq!(binary_search_unchecked(&data, &target), Some(7));
}

#[test]
fn string_example_target_three() {
    let data = generate_sorted_string_vec(10);
    let target = String::from("item0000003");
    assert_eq!(binary_search_safe(&data, &target), Some(3));
    assert_eq!(binary_search_unchecked(&data, &target), Some(3));
}

#[test]
fn int_generator_ascending_no_gaps() {
    let data = generate_sorted_int_vec(1000);
    assert_eq!(data.len(), 1000);
    for i in 0..1000 {
        assert_eq!(data[i], i as i32);
    }
    for i in 1..1000 {
        assert!(data[i - 1] < data[i]);
        assert_eq!(data[i] - data[i - 1], 1);
    }
}

#[test]
fn string_generator_ascending_padded() {
    let data = generate_sorted_string_vec(15);
    assert_eq!(data.len(), 15);
    for i in 0..15 {
        assert_eq!(data[i], format!("item{:07}", i));
        assert_eq!(data[i].len(), 11);
    }
    for i in 1..15 {
        assert!(data[i - 1] < data[i]);
    }
}

#[test]
fn label_string_matches_padded_format() {
    for i in [0usize, 7, 9, 10, 99, 4321, 1234567, 9_999_999] {
        assert_eq!(label_string(i), format!("item{:07}", i));
    }
}

#[test]
fn variants_agree_on_every_present_int() {
    let data = generate_sorted_int_vec(257);
    for i in 0..257usize {
        let target = i as i32;
        let safe = binary_search_safe(&data, &target);
        let unchecked = binary_search_unchecked(&data, &target);
        assert_eq!(safe, unchecked);
        assert_eq!(safe, Some(i));
    }
}

#[test]
fn variants_agree_on_every_present_string() {
    let data = generate_sorted_string_vec(30);
    for i in 0..30usize {
        let target = label_string(i);
        let safe = binary_search_safe(&data, &target);
        let unchecked = binary_search_unchecked(&data, &target);
        assert_eq!(safe, unchecked);
        assert_eq!(safe, Some(i));
    }
}

#[test]
fn absent_int_targets_find_nothing() {
    let data = generate_sorted_int_vec(100);
    for target in [-5i32, -1, 100, 1000, i32::MAX] {
        assert_eq!(binary_search_safe(&data, &target), None);
        assert_eq!(binary_search_unchecked(&data, &target), None);
    }
}

#[test]
fn absent_string_targets_find_nothing() {
    let data = generate_sorted_string_vec(20);
    for target in ["", "a", "item", "item000002", "item00000200", "item0000020", "zzz"] {
        let target = String::from(target);
        assert_eq!(binary_search_safe(&data, &target), None);
        assert_eq!(binary_search_unchecked(&data, &target), None);
    }
}

#[test]
fn empty_sequence_finds_nothing() {
    let ints = generate_sorted_int_vec(0);
    assert_eq!(ints.len(), 0);
    assert_eq!(binary_search_safe(&ints, &0), None);
    assert_eq!(binary_search_unchecked(&ints, &0), None);
    let strings = generate_sorted_string_vec(0);
    assert_eq!(strings.len(), 0);
    assert_eq!(binary_search_safe(&strings, &String::from("item0000000")), None);
}

#[test]
fn single_element_sequence() {
    let data = generate_sorted_int_vec(1);
    assert_eq!(binary_search_safe(&data, &0), Some(0));
    assert_eq!(binary_search_unchecked(&data, &0), Some(0));
    assert_eq!(binary_search_safe(&data, &1), None);
    assert_eq!(binary_search_unchecked(&data, &1), None);
}

#[test]
fn first_and_last_elements_found() {
    let data = generate_sorted_int_vec(1024);
    assert_eq!(binary_search_safe(&data, &0), Some(0));
    assert_eq!(binary_search_unchecked(&data, &0), Some(0));
    assert_eq!(binary_search_safe(&data, &1023), Some(1023));
    assert_eq!(binary_search_unchecked(&data, &1023), Some(1023));
}
