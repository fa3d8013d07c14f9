use expression_lib::column::{broadcast_length, unsupported_dtype_message, ColumnError, DType};
use expression_lib::cumulative::{cum_fold, cum_str, cum_str_mul, cum_str_spaced, join_columns, AddKwargs, ScanState};
use expression_lib::maximum::{check_max_dtype, larger, largest, IntColumn};
use expression_lib::text::{capitalize, capitalize_str};

fn texts(v: &[Option<&str>]) -> Vec<Option<String>> {
    v.iter().map(|o| o.map(|s| s.to_string())).collect()
}

#[test]
fn capitalize_str_upper_cases_first_letter() {
    assert_eq!(capitalize_str("hello world"), "Hello world");
    assert_eq!(capitalize_str("z"), "Z");
}

#[test]
fn capitalize_str_keeps_other_characters() {
    assert_eq!(capitalize_str("Hello"), "Hello");
    assert_eq!(capitalize_str("1abc"), "1abc");
    assert_eq!(capitalize_str("éa"), "éa");
    assert_eq!(capitalize_str("aé"), "Aé");
    assert_eq!(capitalize_str(""), "");
}

#[test]
fn capitalize_column_keeps_nulls() {
    let col = texts(&[Some("abc"), None, Some(""), Some("xY")]);
    assert_eq!(capitalize(&col), texts(&[Some("Abc"), None, Some(""), Some("XY")]));
}

#[test]
fn larger_of_two_scalars() {
    let r = larger(&IntColumn::Int64(vec![Some(3)]), &IntColumn::Int64(vec![Some(5)]));
    assert_eq!(r, Ok(IntColumn::Int64(vec![Some(5)])));
}

#[test]
fn larger_null_propagates() {
    let r = larger(&IntColumn::Int32(vec![None]), &IntColumn::Int32(vec![Some(5)]));
    assert_eq!(r, Ok(IntColumn::Int32(vec![None])));
}

#[test]
fn larger_broadcasts_length_one() {
    let r = larger(
        &IntColumn::Int32(vec![Some(1), Some(7), None, Some(-4)]),
        &IntColumn::Int32(vec![Some(5)]),
    );
    assert_eq!(r, Ok(IntColumn::Int32(vec![Some(5), Some(7), None, Some(5)])));
    let r = larger(
        &IntColumn::Int64(vec![Some(2)]),
        &IntColumn::Int64(vec![Some(1), Some(3)]),
    );
    assert_eq!(r, Ok(IntColumn::Int64(vec![Some(2), Some(3)])));
}

#[test]
fn larger_equal_lengths() {
    let r = larger(
        &IntColumn::Int64(vec![Some(i64::MIN), Some(9), Some(0)]),
        &IntColumn::Int64(vec![Some(i64::MAX), Some(-9), None]),
    );
    assert_eq!(r, Ok(IntColumn::Int64(vec![Some(i64::MAX), Some(9), None])));
}

#[test]
fn larger_length_mismatch() {
    let r = larger(
        &IntColumn::Int64(vec![Some(1), Some(2)]),
        &IntColumn::Int64(vec![Some(1), Some(2), Some(3)]),
    );
    assert_eq!(r, Err(ColumnError::LengthMismatch { left: 2, right: 3 }));
}

#[test]
fn larger_type_mismatch() {
    let r = larger(&IntColumn::Int32(vec![Some(1)]), &IntColumn::Int64(vec![Some(2)]));
    assert_eq!(r, Err(ColumnError::TypeMismatch { expected: DType::Int32, found: DType::Int64 }));
}

#[test]
fn max_dtype_support() {
    assert_eq!(check_max_dtype(&DType::Int32), Ok(()));
    assert_eq!(check_max_dtype(&DType::Float64), Ok(()));
    assert_eq!(
        check_max_dtype(&DType::Other("str".to_string())),
        Err(ColumnError::UnsupportedDtype { dtype: "str".to_string() })
    );
    assert_eq!(
        unsupported_dtype_message("str"),
        "dtype str not supported, expected Int32, Int64, Float32 or Float64."
    );
}

#[test]
fn broadcast_lengths() {
    assert_eq!(broadcast_length(4, 4), Ok(4));
    assert_eq!(broadcast_length(1, 4), Ok(4));
    assert_eq!(broadcast_length(4, 1), Ok(4));
    assert_eq!(broadcast_length(1, 0), Ok(0));
    assert_eq!(broadcast_length(2, 3), Err(ColumnError::LengthMismatch { left: 2, right: 3 }));
}

#[test]
fn largest_of_three_scalars() {
    let cols = vec![vec![Some(1)], vec![Some(5)], vec![Some(3)]];
    assert_eq!(largest(&cols), Ok(vec![Some(5)]));
}

#[test]
fn largest_single_column_unchanged() {
    let col = vec![Some(4), None, Some(-2)];
    assert_eq!(largest(&vec![col.clone()]), Ok(col));
}

#[test]
fn largest_order_of_columns_irrelevant() {
    let a = vec![Some(1), Some(8), None];
    let b = vec![Some(6)];
    let c = vec![Some(3), Some(2), Some(9)];
    let expected = Ok(vec![Some(6), Some(8), None]);
    assert_eq!(largest(&vec![a.clone(), b.clone(), c.clone()]), expected);
    assert_eq!(largest(&vec![c.clone(), a.clone(), b.clone()]), expected);
    assert_eq!(largest(&vec![b, c, a]), expected);
}

#[test]
fn largest_length_mismatch() {
    let cols = vec![vec![Some(1), Some(2)], vec![Some(1)], vec![Some(1), Some(2), Some(3)]];
    assert_eq!(largest(&cols), Err(ColumnError::LengthMismatch { left: 2, right: 3 }));
}

#[test]
fn cum_str_space_trim() {
    let kwargs = AddKwargs { sep: " ".to_string(), trim: true };
    let col = texts(&[Some("a"), Some("b"), Some("c")]);
    assert_eq!(cum_str(&col, &kwargs), texts(&[Some("a"), Some("a b"), Some("a b c")]));
}

#[test]
fn cum_str_no_trim_leads_with_separator() {
    let kwargs = AddKwargs { sep: "-".to_string(), trim: false };
    let col = texts(&[Some("a"), Some("b")]);
    assert_eq!(cum_str(&col, &kwargs), texts(&[Some("-a"), Some("-a-b")]));
}

#[test]
fn cum_str_null_is_skipped() {
    let kwargs = AddKwargs { sep: " ".to_string(), trim: true };
    let col = texts(&[Some("a"), None, Some("b")]);
    assert_eq!(cum_str(&col, &kwargs), texts(&[Some("a"), None, Some("a b")]));
}

#[test]
fn cum_str_leading_null_keeps_trim() {
    let kwargs = AddKwargs { sep: ", ".to_string(), trim: true };
    let col = texts(&[None, Some("x"), Some("y")]);
    assert_eq!(cum_str(&col, &kwargs), texts(&[None, Some("x"), Some("x, y")]));
}

#[test]
fn cum_fold_empty_column() {
    assert_eq!(cum_fold(&Vec::new(), " ", true), Vec::<Option<String>>::new());
}

#[test]
fn cum_str_spaced_fold() {
    let col = texts(&[Some("a"), None, Some("b"), Some("c")]);
    assert_eq!(cum_str_spaced(&col), texts(&[Some("a"), None, Some("a b"), Some("a b c")]));
}

#[test]
fn scan_state_steps() {
    let mut state = ScanState::new();
    assert_eq!(state.feed(&None, "+", true), None);
    assert_eq!(state.feed(&Some("p".to_string()), "+", true), Some("p".to_string()));
    assert_eq!(state.feed(&Some("q".to_string()), "+", true), Some("p+q".to_string()));
    assert_eq!(state.acc, "p+q");
    assert!(!state.first);
}

#[test]
fn cum_str_mul_newline_join() {
    let left = texts(&[Some("x"), Some("y")]);
    let right = texts(&[Some("1"), Some("2")]);
    assert_eq!(cum_str_mul(&left, &right), Ok(texts(&[Some("x 1"), Some("x 1\ny 2")])));
}

#[test]
fn cum_str_mul_null_on_either_side() {
    let left = texts(&[Some("x"), None, Some("z")]);
    let right = texts(&[Some("1"), Some("2"), Some("3")]);
    assert_eq!(cum_str_mul(&left, &right), Ok(texts(&[Some("x 1"), None, Some("x 1\nz 3")])));
}

#[test]
fn join_columns_broadcast_and_mismatch() {
    let left = texts(&[Some("k")]);
    let right = texts(&[Some("1"), None]);
    assert_eq!(join_columns(&left, &right), Ok(texts(&[Some("k 1"), None])));
    let right = texts(&[Some("1"), Some("2"), Some("3")]);
    assert_eq!(
        cum_str_mul(&texts(&[Some("a"), Some("b")]), &right),
        Err(ColumnError::LengthMismatch { left: 2, right: 3 })
    );
}
