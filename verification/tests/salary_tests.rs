use job_search::salary::extract_salary;

#[test]
fn test_extract_salary_with_dollar_sign() {
    assert_eq!(extract_salary("$50,000 - $70,000"), Some(50000));
}

#[test]
fn test_extract_salary_no_salary() {
    assert_eq!(extract_salary("Competitive salary"), None);
}

#[test]
fn test_extract_salary_with_k_notation() {
    assert_eq!(extract_salary("$120,000/year"), Some(120000));
}

#[test]
fn extract_salary_takes_first_plausible_number() {
    // Two candidates: "1" is below the plausibility floor, "2,000" is
    // taken. Had the pattern handed the whole text back as one candidate,
    // its digits would parse to 12000 instead.
    assert_eq!(extract_salary("1 2,000"), Some(2000));
}

#[test]
fn extract_salary_skips_small_numbers() {
    assert_eq!(extract_salary("level 3 pays 45,000"), Some(45000));
}

#[test]
fn first_valid_salary_on_explicit_candidates() {
    let cands = vec!["12".to_string(), "999".to_string(), "4,500".to_string()];
    assert_eq!(job_search::salary::first_valid_salary(&cands), Some(4500));
}

#[test]
fn first_valid_salary_rejects_overflow() {
    let cands = vec!["99999999999999999999999999".to_string(), "2000".to_string()];
    assert_eq!(job_search::salary::first_valid_salary(&cands), Some(2000));
}
