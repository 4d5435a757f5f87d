use mieli::file::{FileError, IoErrorKind};
use mieli::i18n::{Language, LocalizedMessage, TextKey, operation_label};

#[test]
fn language_toggle_updates_labels_and_switch_hint() {
    assert_eq!(Language::English.short_label(), "EN");
    assert_eq!(Language::English.toggle(), Language::Chinese);
    assert_eq!(
        Language::English.toggle().text(TextKey::SwitchLanguage),
        "切换为英文"
    );
    assert_eq!(Language::Chinese.toggle(), Language::English);
    assert_eq!(
        Language::Chinese.toggle().text(TextKey::SwitchLanguage),
        "Switch to Chinese"
    );
}

#[test]
fn permission_message_directs_users_to_file_open_without_dragging() {
    let error = FileError::PermissionDenied {
        path: "/private/notes".into(),
        operation: "scan",
    };

    let english = error.localized_message(Language::English);
    let chinese = error.localized_message(Language::Chinese);
    assert!(english.contains("Use Open"));
    assert!(chinese.contains("使用“打开”"));
    assert!(!english.contains("Drag"));
    assert!(!chinese.contains("拖"));
}

#[test]
fn toggling_twice_returns_to_the_same_language() {
    for language in [Language::English, Language::Chinese] {
        assert_eq!(language.toggle().toggle(), language);
    }
}

#[test]
fn locale_identifiers_select_the_interface_language() {
    assert_eq!(Language::from_identifier("en-US"), Some(Language::English));
    assert_eq!(Language::from_identifier("en_US.UTF-8"), Some(Language::English));
    assert_eq!(Language::from_identifier("zh-Hans-CN"), Some(Language::Chinese));
    assert_eq!(Language::from_identifier("ZH_cn"), Some(Language::Chinese));
    assert_eq!(Language::from_identifier("Chinese"), Some(Language::Chinese));
    assert_eq!(Language::from_identifier("zh-Hant-TW"), None);
    assert_eq!(Language::from_identifier("zh_TW"), None);
    assert_eq!(Language::from_identifier("fr-FR"), None);
    assert_eq!(Language::from_identifier(""), None);
    assert_eq!(Language::from_identifier("zh-Hant, en"), Some(Language::English));
}

#[test]
fn the_first_identifier_naming_a_language_wins() {
    let candidates = vec![
        String::from("fr_FR"),
        String::from("zh-Hant"),
        String::from("zh-CN"),
        String::from("en"),
    ];
    assert_eq!(Language::resolve(&candidates), Language::Chinese);
    assert_eq!(Language::resolve(&Vec::new()), Language::English);
    assert_eq!(Language::resolve(&vec![String::from("de")]), Language::English);
}

#[test]
fn an_explicit_override_comes_before_the_system() {
    assert_eq!(
        Language::current_from(Some(String::from("zh")), Some(String::from("en")), Vec::new()),
        Language::Chinese
    );
    assert_eq!(
        Language::current_from(Some(String::from("en")), None, vec![String::from("zh_CN")]),
        Language::English
    );
}

#[test]
fn operation_labels_are_translated_in_chinese_only() {
    assert_eq!(operation_label(Language::English, "write"), "write");
    assert_eq!(operation_label(Language::Chinese, "write"), "写入");
    assert_eq!(operation_label(Language::Chinese, "frobnicate"), "frobnicate");
}

#[test]
fn read_markdown_rejects_invalid_utf8_with_exact_message() {
    let error = FileError::from_io("/t/broken.md", "read", IoErrorKind::InvalidData);

    assert!(matches!(&error, FileError::InvalidUtf8 { operation: "read", .. }));
    assert_eq!(error.message(), "The file is not valid UTF-8.");
}

#[test]
fn window_labels_come_in_both_languages() {
    assert_eq!(Language::English.text(TextKey::WindowMenu), "Window");
    assert_eq!(Language::English.text(TextKey::ReopenWindow), "Open Mieli Window");
    assert_eq!(Language::English.text(TextKey::PathCopied), "Path copied");
    assert_eq!(Language::English.text(TextKey::LoadingWorkspace), "Loading workspace…");
    assert_eq!(Language::English.text(TextKey::NewDocument), "New Document");
    assert_eq!(Language::Chinese.text(TextKey::WindowMenu), "窗口");
    assert_eq!(Language::Chinese.text(TextKey::PathCopied), "已复制路径");
    assert_eq!(Language::Chinese.text(TextKey::NewDocument), "新建文档");
}
