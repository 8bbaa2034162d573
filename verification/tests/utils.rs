use iris_lib::utils::clamp_iterations;
use iris_lib::utils::mean;
use iris_lib::utils::MAX_ITERATIONS;
use iris_lib::utils::MIN_ITERATIONS;

#[test]
fn mean_ut() {
    let data: Vec<u8> = vec![33, 13, 255, 0, 42];
    let result = mean(&data);
    assert_eq!(68, result);
}

#[test]
fn mean_of_one_value_is_that_value() {
    assert_eq!(0, mean(&[0]));
    assert_eq!(7, mean(&[7]));
    assert_eq!(255, mean(&[255]));
}

#[test]
fn mean_rounds_down() {
    assert_eq!(0, mean(&[0, 1]));
    assert_eq!(1, mean(&[1, 2]));
    assert_eq!(2, mean(&[1, 3]));
    assert_eq!(254, mean(&[254, 255]));
    assert_eq!(1, mean(&[1, 1, 3]));
}

#[test]
fn mean_of_many_large_values_does_not_overflow() {
    let data: Vec<u8> = vec![255; 100_000];
    assert_eq!(255, mean(&data));
    let mut data: Vec<u8> = vec![255; 100_000];
    data.push(0);
    assert_eq!(254, mean(&data));
}

#[test]
fn mean_of_equal_values_is_that_value() {
    for value in [0u8, 1, 100, 254, 255] {
        for count in 1..20usize {
            assert_eq!(value, mean(&vec![value; count]));
        }
    }
}

#[test]
fn clamp_iterations_keeps_the_range() {
    assert_eq!(1, clamp_iterations(1));
    assert_eq!(2, clamp_iterations(2));
    assert_eq!(3, clamp_iterations(3));
    assert_eq!(4, clamp_iterations(4));
}

#[test]
fn clamp_iterations_raises_and_lowers() {
    assert_eq!(1, clamp_iterations(0));
    assert_eq!(4, clamp_iterations(5));
    assert_eq!(4, clamp_iterations(255));
    assert_eq!(1, MIN_ITERATIONS);
    assert_eq!(4, MAX_ITERATIONS);
}
