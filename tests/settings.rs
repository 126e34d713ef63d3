use gthr::settings::{
    decimal_string, default_binary_extensions, default_include_line_numbers, default_include_metadata,
    default_max_clipboard_size, default_max_file_size, default_respect_gitignore, default_show_hidden,
    default_text_extensions, Settings,
};

#[test]
fn defaults() {
    let s = Settings::default();
    assert_eq!(s.max_file_size, 2 * 1024 * 1024);
    assert_eq!(s.max_clipboard_size, 2 * 1024 * 1024);
    assert!(s.respect_gitignore);
    assert!(!s.show_hidden);
    assert!(s.include_metadata);
    assert!(!s.include_line_numbers);
    assert!(s.default_output_dir.is_none());
    assert_eq!(s.file_extensions.text_extensions.len(), 23);
    assert_eq!(s.file_extensions.binary_extensions[0], "exe");
    assert_eq!(default_max_file_size(), 2097152);
    assert_eq!(default_max_clipboard_size(), 2097152);
    assert!(default_respect_gitignore());
    assert!(!default_show_hidden());
    assert!(default_include_metadata());
    assert!(!default_include_line_numbers());
    assert_eq!(default_text_extensions()[2], "rs");
    assert_eq!(default_binary_extensions().len(), 22);
}

#[test]
fn clipboard_size_text() {
    let mut s = Settings::default();
    assert_eq!(s.format_clipboard_size(), "2MB");
    s.max_clipboard_size = 1536;
    assert_eq!(s.format_clipboard_size(), "1KB");
    s.max_clipboard_size = 100;
    assert_eq!(s.format_clipboard_size(), "100B");
    s.max_clipboard_size = 0;
    assert_eq!(s.format_clipboard_size(), "0B");
}

#[test]
fn decimal_digits() {
    assert_eq!(decimal_string(0), "0");
    assert_eq!(decimal_string(7), "7");
    assert_eq!(decimal_string(1234), "1234");
    assert_eq!(decimal_string(usize::MAX), usize::MAX.to_string());
}

#[test]
fn project_config_path() {
    assert_eq!(Settings::get_project_config_path("/p"), "/p/.gthr.toml");
    assert_eq!(Settings::get_project_config_path("/p/"), "/p/.gthr.toml");
    assert_eq!(Settings::get_project_config_path(""), ".gthr.toml");
}

#[test]
fn merge_takes_non_default_project_values() {
    let mut global = Settings::default();
    global.max_file_size = 10;
    global.show_hidden = true;
    global.default_output_dir = Some("/out".to_string());
    let mut project = Settings::default();
    project.max_clipboard_size = 5;
    project.include_line_numbers = true;
    project.file_extensions.text_extensions = vec!["rs".to_string()];
    let merged = Settings::merge_settings(global, project);
    assert_eq!(merged.max_file_size, 10);
    assert_eq!(merged.max_clipboard_size, 5);
    assert!(merged.show_hidden);
    assert!(merged.include_line_numbers);
    assert_eq!(merged.default_output_dir, Some("/out".to_string()));
    assert_eq!(merged.file_extensions.text_extensions, vec!["rs".to_string()]);
    assert_eq!(merged.file_extensions.binary_extensions.len(), 22);
}
