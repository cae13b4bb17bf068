use hfi::instance::is_sole_instance;

fn table(v: &[(u32, &str)]) -> Vec<(u32, String)> {
    v.iter().map(|&(p, n)| (p, n.to_string())).collect()
}

#[test]
fn sole_instance_when_name_unique() {
    let t = table(&[(1, "init"), (42, "hfi"), (7, "bash")]);
    assert_eq!(is_sole_instance(42, &t), Some(true));
}

#[test]
fn not_sole_when_name_repeated() {
    let t = table(&[(1, "init"), (42, "hfi"), (43, "hfi")]);
    assert_eq!(is_sole_instance(42, &t), Some(false));
    assert_eq!(is_sole_instance(43, &t), Some(false));
}

#[test]
fn own_process_missing_is_none() {
    let t = table(&[(1, "init"), (43, "hfi")]);
    assert_eq!(is_sole_instance(42, &t), None);
    assert_eq!(is_sole_instance(42, &table(&[])), None);
}

#[test]
fn names_compare_exactly() {
    let t = table(&[(42, "hfi"), (5, "HFI"), (6, "hfi2")]);
    assert_eq!(is_sole_instance(42, &t), Some(true));
}
