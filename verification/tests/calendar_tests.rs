use whatwg_datetime::{max_days_in_month_year, week_number_of_year};

#[test]
fn test_max_days_in_month_28_days() {
    assert_eq!(max_days_in_month_year(2, 2021), Some(28));
    assert_eq!(max_days_in_month_year(2, 2022), Some(28));
    assert_eq!(max_days_in_month_year(2, 2023), Some(28));
}

#[test]
fn test_max_days_in_month_29_days() {
    assert_eq!(max_days_in_month_year(2, 2020), Some(29));
    assert_eq!(max_days_in_month_year(2, 2024), Some(29));
    assert_eq!(max_days_in_month_year(2, 2028), Some(29));
    assert_eq!(max_days_in_month_year(2, 2400), Some(29));
}

#[test]
fn test_max_days_in_month_30_days() {
    assert_eq!(max_days_in_month_year(4, 2021), Some(30));
    assert_eq!(max_days_in_month_year(6, 2021), Some(30));
    assert_eq!(max_days_in_month_year(9, 2021), Some(30));
    assert_eq!(max_days_in_month_year(11, 2021), Some(30));
}

#[test]
fn test_max_days_in_month_31_days() {
    assert_eq!(max_days_in_month_year(1, 2021), Some(31));
    assert_eq!(max_days_in_month_year(3, 2019), Some(31));
    assert_eq!(max_days_in_month_year(5, 2000), Some(31));
    assert_eq!(max_days_in_month_year(7, 3097), Some(31));
    assert_eq!(max_days_in_month_year(8, 1985), Some(31));
    assert_eq!(max_days_in_month_year(10, 1426), Some(31));
    assert_eq!(max_days_in_month_year(12, 1953), Some(31));
}

#[test]
fn test_max_days_in_month_nothing() {
    assert_eq!(max_days_in_month_year(13, 2022), None);
}

#[test]
fn test_week_number_of_year_is_52() {
    assert_eq!(week_number_of_year(2012), Some(52));
    assert_eq!(week_number_of_year(2017), Some(52));
    assert_eq!(week_number_of_year(2018), Some(52));
    assert_eq!(week_number_of_year(2019), Some(52));
    assert_eq!(week_number_of_year(2021), Some(52));
    assert_eq!(week_number_of_year(2022), Some(52));
    assert_eq!(week_number_of_year(2023), Some(52));
}

#[test]
fn test_week_number_of_year_is_53() {
    assert_eq!(week_number_of_year(1801), Some(53));
    assert_eq!(week_number_of_year(2004), Some(53));
    assert_eq!(week_number_of_year(2009), Some(53));
    assert_eq!(week_number_of_year(2015), Some(53));
    assert_eq!(week_number_of_year(2020), Some(53));
}

/// Test for the corner case where the first day of the year is a Wednesday,
/// but the year isn't a leap year
#[test]
fn test_week_number_of_year_starts_on_wednesday_and_not_leap_year_is_52() {
    assert_eq!(week_number_of_year(2014), Some(52));
    assert_eq!(week_number_of_year(2025), Some(52));
}
