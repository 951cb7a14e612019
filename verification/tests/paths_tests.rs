use dirsize::paths::normalize_separators;

#[test]
fn backslashes_become_forward_slashes() {
    assert_eq!(normalize_separators("C:\\Users\\me"), "C:/Users/me");
}

#[test]
fn forward_slashes_are_kept() {
    assert_eq!(normalize_separators("/home/me/files"), "/home/me/files");
}

#[test]
fn mixed_separators_come_out_uniform() {
    assert_eq!(normalize_separators("C:\\data/sub\\leaf"), "C:/data/sub/leaf");
}

#[test]
fn empty_path_stays_empty() {
    assert_eq!(normalize_separators(""), "");
}

#[test]
fn other_characters_are_untouched() {
    assert_eq!(normalize_separators("désky\\müsic"), "désky/müsic");
}
