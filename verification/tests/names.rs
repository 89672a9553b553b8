use monitui::preset::sanitize_filename;

#[test]
fn test_sanitize_filename() {
    assert_eq!(sanitize_filename("my preset!"), "my_preset_");
    assert_eq!(sanitize_filename("work-setup_2"), "work-setup_2");
}

#[test]
fn sanitize_keeps_alphanumerics_beyond_ascii() {
    assert_eq!(sanitize_filename("büro Monitor/1"), "büro_Monitor_1");
}

#[test]
fn sanitize_empty_name() {
    assert_eq!(sanitize_filename(""), "");
}
