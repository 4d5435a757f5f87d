//! Interface languages, the text of each label, and the localized
//! messages built from them.

use vstd::prelude::*;
use crate::text::{
    ascii_lower, cat2, cat3, cat5, chars_of, push_char, str_eq, string_from_chars, to_ascii_lower,
};

verus! {

/// The languages of the interface.
#[derive(Clone, Copy, Debug, PartialEq, Eq, Structural)]
pub enum Language {
    English,
    Chinese,
}

/// The other language.
pub open spec fn spec_toggle(l: Language) -> Language {
    match l {
        Language::English => Language::Chinese,
        Language::Chinese => Language::English,
    }
}

/// Switching the language twice comes back to where it started, and the
/// switch always changes it.
pub proof fn law_toggle_involution(l: Language)
    ensures
        spec_toggle(spec_toggle(l)) == l,
        spec_toggle(l) != l,
{
}

/// A message that can be shown in either language.
pub trait LocalizedMessage {
    fn localized_message(&self, language: Language) -> String;
}

/// The labels of the interface.
#[derive(Clone, Copy, Debug, PartialEq, Eq, Structural)]
pub enum TextKey {
    FileMenu,
    NewFile,
    Open,
    OpenFile,
    OpenFolder,
    ChooseOpenTarget,
    OpenRecent,
    RefreshFiles,
    Save,
    SaveAs,
    SaveAll,
    CloseTab,
    Quit,
    HideSidebar,
    ShowSidebar,
    Workspace,
    NoMarkdownFiles,
    WelcomeHint,
    CloseTabTooltip,
    NewDocumentTooltip,
    NoDocumentSelected,
    Untitled,
    CopyPath,
    UnsavedChanges,
    DontSave,
    Cancel,
    FileChangedOnDisk,
    ReloadFromDisk,
    KeepMyChanges,
    FileDeletedOnDisk,
    KeepOpen,
    Close,
    SaveFailed,
    QuitAnyway,
    ThisTab,
    ThisFile,
    SwitchLanguage,
    WindowMenu,
    ReopenWindow,
    PathCopied,
    LoadingWorkspace,
    NewDocument,
}

/// The text of `key` in `lang`.
pub open spec fn spec_text(lang: Language, key: TextKey) -> &'static str {
        match lang {
            Language::English => match key {
                TextKey::FileMenu => "File",
                TextKey::NewFile => "New File",
                TextKey::Open => "Open",
                TextKey::OpenFile => "File",
                TextKey::OpenFolder => "Folder",
                TextKey::ChooseOpenTarget => "Choose a Markdown file or folder.",
                TextKey::OpenRecent => "Open Recent",
                TextKey::RefreshFiles => "Refresh Tree",
                TextKey::Save => "Save",
                TextKey::SaveAs => "Save As",
                TextKey::SaveAll => "Save All",
                TextKey::CloseTab => "Close Tab",
                TextKey::Quit => "Quit",
                TextKey::HideSidebar => "Hide Sidebar (⌘⇧L)",
                TextKey::ShowSidebar => "Show Sidebar (⌘⇧L)",
                TextKey::Workspace => "Workspace",
                TextKey::NoMarkdownFiles => "No Markdown files yet.",
                TextKey::WelcomeHint => "Open a Markdown file or folder to start writing.",
                TextKey::CloseTabTooltip => "Close tab",
                TextKey::NewDocumentTooltip => "New Document",
                TextKey::NoDocumentSelected => "No document selected.",
                TextKey::Untitled => "Untitled",
                TextKey::CopyPath => "Copy path",
                TextKey::UnsavedChanges => "Unsaved changes",
                TextKey::DontSave => "Don't Save",
                TextKey::Cancel => "Cancel",
                TextKey::FileChangedOnDisk => "File changed on disk",
                TextKey::ReloadFromDisk => "Reload from Disk",
                TextKey::KeepMyChanges => "Keep My Changes",
                TextKey::FileDeletedOnDisk => "File deleted on disk",
                TextKey::KeepOpen => "Keep Open",
                TextKey::Close => "Close",
                TextKey::SaveFailed => "Save failed",
                TextKey::QuitAnyway => "Quit Anyway",
                TextKey::ThisTab => "this tab",
                TextKey::ThisFile => "This file",
                TextKey::SwitchLanguage => "Switch to Chinese",
                TextKey::WindowMenu => "Window",
                TextKey::ReopenWindow => "Open Mieli Window",
                TextKey::PathCopied => "Path copied",
                TextKey::LoadingWorkspace => "Loading workspace…",
                TextKey::NewDocument => "New Document",
            },
            Language::Chinese => match key {
                TextKey::FileMenu => "文件",
                TextKey::NewFile => "新建文件",
                TextKey::Open => "打开",
                TextKey::OpenFile => "文件",
                TextKey::OpenFolder => "文件夹",
                TextKey::ChooseOpenTarget => "选择 Markdown 文件或文件夹。",
                TextKey::OpenRecent => "最近打开",
                TextKey::RefreshFiles => "刷新文件树",
                TextKey::Save => "保存",
                TextKey::SaveAs => "另存为",
                TextKey::SaveAll => "全部保存",
                TextKey::CloseTab => "关闭标签页",
                TextKey::Quit => "退出",
                TextKey::HideSidebar => "隐藏侧边栏 (⌘⇧L)",
                TextKey::ShowSidebar => "显示侧边栏 (⌘⇧L)",
                TextKey::Workspace => "工作区",
                TextKey::NoMarkdownFiles => "暂无 Markdown 文件。",
                TextKey::WelcomeHint => "打开 Markdown 文件或文件夹，开始写作。",
                TextKey::CloseTabTooltip => "关闭标签页",
                TextKey::NewDocumentTooltip => "新建文档",
                TextKey::NoDocumentSelected => "未选择文档。",
                TextKey::Untitled => "未命名",
                TextKey::CopyPath => "复制路径",
                TextKey::UnsavedChanges => "未保存的更改",
                TextKey::DontSave => "不保存",
                TextKey::Cancel => "取消",
                TextKey::FileChangedOnDisk => "文件已被外部修改",
                TextKey::ReloadFromDisk => "从磁盘重新载入",
                TextKey::KeepMyChanges => "保留我的更改",
                TextKey::FileDeletedOnDisk => "文件已从磁盘删除",
                TextKey::KeepOpen => "保持打开",
                TextKey::Close => "关闭",
                TextKey::SaveFailed => "保存失败",
                TextKey::QuitAnyway => "仍然退出",
                TextKey::ThisTab => "该标签页",
                TextKey::ThisFile => "此文件",
                TextKey::SwitchLanguage => "切换为英文",
                TextKey::WindowMenu => "窗口",
                TextKey::ReopenWindow => "打开 Mieli 窗口",
                TextKey::PathCopied => "已复制路径",
                TextKey::LoadingWorkspace => "正在加载工作区…",
                TextKey::NewDocument => "新建文档",
            },
        }
}

impl Language {
    /// The text of `key` in this language.
    pub fn text(self, key: TextKey) -> (r: &'static str)
        ensures
            r@ == spec_text(self, key)@,
    {
        let lang = self;
        match lang {
            Language::English => match key {
                TextKey::FileMenu => "File",
                TextKey::NewFile => "New File",
                TextKey::Open => "Open",
                TextKey::OpenFile => "File",
                TextKey::OpenFolder => "Folder",
                TextKey::ChooseOpenTarget => "Choose a Markdown file or folder.",
                TextKey::OpenRecent => "Open Recent",
                TextKey::RefreshFiles => "Refresh Tree",
                TextKey::Save => "Save",
                TextKey::SaveAs => "Save As",
                TextKey::SaveAll => "Save All",
                TextKey::CloseTab => "Close Tab",
                TextKey::Quit => "Quit",
                TextKey::HideSidebar => "Hide Sidebar (⌘⇧L)",
                TextKey::ShowSidebar => "Show Sidebar (⌘⇧L)",
                TextKey::Workspace => "Workspace",
                TextKey::NoMarkdownFiles => "No Markdown files yet.",
                TextKey::WelcomeHint => "Open a Markdown file or folder to start writing.",
                TextKey::CloseTabTooltip => "Close tab",
                TextKey::NewDocumentTooltip => "New Document",
                TextKey::NoDocumentSelected => "No document selected.",
                TextKey::Untitled => "Untitled",
                TextKey::CopyPath => "Copy path",
                TextKey::UnsavedChanges => "Unsaved changes",
                TextKey::DontSave => "Don't Save",
                TextKey::Cancel => "Cancel",
                TextKey::FileChangedOnDisk => "File changed on disk",
                TextKey::ReloadFromDisk => "Reload from Disk",
                TextKey::KeepMyChanges => "Keep My Changes",
                TextKey::FileDeletedOnDisk => "File deleted on disk",
                TextKey::KeepOpen => "Keep Open",
                TextKey::Close => "Close",
                TextKey::SaveFailed => "Save failed",
                TextKey::QuitAnyway => "Quit Anyway",
                TextKey::ThisTab => "this tab",
                TextKey::ThisFile => "This file",
                TextKey::SwitchLanguage => "Switch to Chinese",
                TextKey::WindowMenu => "Window",
                TextKey::ReopenWindow => "Open Mieli Window",
                TextKey::PathCopied => "Path copied",
                TextKey::LoadingWorkspace => "Loading workspace…",
                TextKey::NewDocument => "New Document",
            },
            Language::Chinese => match key {
                TextKey::FileMenu => "文件",
                TextKey::NewFile => "新建文件",
                TextKey::Open => "打开",
                TextKey::OpenFile => "文件",
                TextKey::OpenFolder => "文件夹",
                TextKey::ChooseOpenTarget => "选择 Markdown 文件或文件夹。",
                TextKey::OpenRecent => "最近打开",
                TextKey::RefreshFiles => "刷新文件树",
                TextKey::Save => "保存",
                TextKey::SaveAs => "另存为",
                TextKey::SaveAll => "全部保存",
                TextKey::CloseTab => "关闭标签页",
                TextKey::Quit => "退出",
                TextKey::HideSidebar => "隐藏侧边栏 (⌘⇧L)",
                TextKey::ShowSidebar => "显示侧边栏 (⌘⇧L)",
                TextKey::Workspace => "工作区",
                TextKey::NoMarkdownFiles => "暂无 Markdown 文件。",
                TextKey::WelcomeHint => "打开 Markdown 文件或文件夹，开始写作。",
                TextKey::CloseTabTooltip => "关闭标签页",
                TextKey::NewDocumentTooltip => "新建文档",
                TextKey::NoDocumentSelected => "未选择文档。",
                TextKey::Untitled => "未命名",
                TextKey::CopyPath => "复制路径",
                TextKey::UnsavedChanges => "未保存的更改",
                TextKey::DontSave => "不保存",
                TextKey::Cancel => "取消",
                TextKey::FileChangedOnDisk => "文件已被外部修改",
                TextKey::ReloadFromDisk => "从磁盘重新载入",
                TextKey::KeepMyChanges => "保留我的更改",
                TextKey::FileDeletedOnDisk => "文件已从磁盘删除",
                TextKey::KeepOpen => "保持打开",
                TextKey::Close => "关闭",
                TextKey::SaveFailed => "保存失败",
                TextKey::QuitAnyway => "仍然退出",
                TextKey::ThisTab => "该标签页",
                TextKey::ThisFile => "此文件",
                TextKey::SwitchLanguage => "切换为英文",
                TextKey::WindowMenu => "窗口",
                TextKey::ReopenWindow => "打开 Mieli 窗口",
                TextKey::PathCopied => "已复制路径",
                TextKey::LoadingWorkspace => "正在加载工作区…",
                TextKey::NewDocument => "新建文档",
            },
        }
    }

    /// The other language.
    pub fn toggle(self) -> (r: Language)
        ensures
            r == spec_toggle(self),
            r != self,
    {
        match self {
            Language::English => Language::Chinese,
            Language::Chinese => Language::English,
        }
    }

    /// The short label of this language in the language switch.
    pub fn short_label(self) -> (r: &'static str)
        ensures
            self == Language::English ==> r@ == "EN"@,
            self == Language::Chinese ==> r@ == "中"@,
    {
        match self {
            Language::English => "EN",
            Language::Chinese => "中",
        }
    }

    /// The sidebar toggle's label: hide when the sidebar is visible, show
    /// otherwise.
    pub fn sidebar_toggle(self, visible: bool) -> (r: &'static str)
        ensures
            r@ == spec_text(self, if visible { TextKey::HideSidebar } else { TextKey::ShowSidebar })@,
    {
        if visible {
            self.text(TextKey::HideSidebar)
        } else {
            self.text(TextKey::ShowSidebar)
        }
    }
}

/// The Chinese label of an operation; unknown operations, and every
/// operation in English, keep their own name.
pub open spec fn spec_operation_label(language: Language, operation: Seq<char>) -> Seq<char> {
    if language == Language::English {
        operation
    } else if operation == "open"@ {
        "打开"@
    } else if operation == "read"@ {
        "读取"@
    } else if operation == "write"@ {
        "写入"@
    } else if operation == "canonicalize"@ {
        "解析"@
    } else if operation == "inspect"@ {
        "检查"@
    } else if operation == "scan"@ {
        "扫描"@
    } else if operation == "create watcher"@ {
        "创建文件监视器"@
    } else if operation == "watch"@ {
        "监视"@
    } else if operation == "unwatch"@ {
        "停止监视"@
    } else {
        operation
    }
}

/// The label of `operation` in `language`.
pub fn operation_label(language: Language, operation: &str) -> (r: String)
    ensures
        r@ == spec_operation_label(language, operation@),
{
    if language == Language::English {
        return String::from_str(operation);
    }
    if str_eq(operation, "open") {
        String::from_str("打开")
    } else if str_eq(operation, "read") {
        String::from_str("读取")
    } else if str_eq(operation, "write") {
        String::from_str("写入")
    } else if str_eq(operation, "canonicalize") {
        String::from_str("解析")
    } else if str_eq(operation, "inspect") {
        String::from_str("检查")
    } else if str_eq(operation, "scan") {
        String::from_str("扫描")
    } else if str_eq(operation, "create watcher") {
        String::from_str("创建文件监视器")
    } else if str_eq(operation, "watch") {
        String::from_str("监视")
    } else if str_eq(operation, "unwatch") {
        String::from_str("停止监视")
    } else {
        String::from_str(operation)
    }
}

/// "Save changes before closing" for the tab titled `title`.
pub open spec fn spec_save_changes_before_closing(language: Language, title: Seq<char>) -> Seq<char> {
    match language {
        Language::English => "Save changes to “"@ + title + "” before closing?"@,
        Language::Chinese => "关闭前保存“"@ + title + "”的更改吗？"@,
    }
}

/// The question shown when a file with unsaved edits changed on disk.
pub open spec fn spec_external_change_message(language: Language, title: Seq<char>) -> Seq<char> {
    match language {
        Language::English => "“"@ + title + "” was changed outside Mieli. Reload the disk version or keep your changes?"@,
        Language::Chinese => "“"@ + title + "”已在 Mieli 外部被修改。重新载入磁盘版本，还是保留你的更改？"@,
    }
}

/// The question shown when an open file was deleted on disk.
pub open spec fn spec_deleted_file_message(language: Language, title: Seq<char>) -> Seq<char> {
    match language {
        Language::English => "“"@ + title + "” was deleted outside Mieli. Keep the editor open or close it?"@,
        Language::Chinese => "“"@ + title + "”已在 Mieli 外部被删除。保持编辑器打开，还是关闭？"@,
    }
}

/// The notification for a watcher error, with its path when it has one.
pub open spec fn spec_file_watcher_error(language: Language, path: Option<Seq<char>>, message: Seq<char>) -> Seq<char> {
    match (language, path) {
        (Language::English, Some(p)) => "File watcher error for "@ + p + ": "@ + message,
        (Language::English, None) => "File watcher error: "@ + message,
        (Language::Chinese, Some(p)) => "文件监视器错误："@ + p + "（详情："@ + message + "）"@,
        (Language::Chinese, None) => "文件监视器错误（详情："@ + message + "）"@,
    }
}

impl Language {
    pub fn save_changes_before_closing(self, title: &str) -> (r: String)
        ensures
            r@ == spec_save_changes_before_closing(self, title@),
    {
        match self {
            Language::English => cat3("Save changes to “", title, "” before closing?"),
            Language::Chinese => cat3("关闭前保存“", title, "”的更改吗？"),
        }
    }

    pub fn external_change_message(self, title: &str) -> (r: String)
        ensures
            r@ == spec_external_change_message(self, title@),
    {
        match self {
            Language::English => cat3("“", title, "” was changed outside Mieli. Reload the disk version or keep your changes?"),
            Language::Chinese => cat3("“", title, "”已在 Mieli 外部被修改。重新载入磁盘版本，还是保留你的更改？"),
        }
    }

    pub fn deleted_file_message(self, title: &str) -> (r: String)
        ensures
            r@ == spec_deleted_file_message(self, title@),
    {
        match self {
            Language::English => cat3("“", title, "” was deleted outside Mieli. Keep the editor open or close it?"),
            Language::Chinese => cat3("“", title, "”已在 Mieli 外部被删除。保持编辑器打开，还是关闭？"),
        }
    }

    pub fn file_watcher_error(self, path: Option<&str>, message: &str) -> (r: String)
        ensures
            r@ == spec_file_watcher_error(self, match path { Some(p) => Some(p@), None => None }, message@),
    {
        match (self, path) {
            (Language::English, Some(p)) => {
                let mut s = String::from_str("File watcher error for ");
                s.append(p);
                s.append(": ");
                s.append(message);
                s
            },
            (Language::English, None) => cat2("File watcher error: ", message),
            (Language::Chinese, Some(p)) => cat5("文件监视器错误：", p, "（详情：", message, "）"),
            (Language::Chinese, None) => cat3("文件监视器错误（详情：", message, "）"),
        }
    }
}

/// ASCII letters and digits.
pub open spec fn is_ascii_alnum(c: char) -> bool {
    ('a' <= c && c <= 'z') || ('A' <= c && c <= 'Z') || ('0' <= c && c <= '9')
}

/// Splitting `s` into its maximal runs of ASCII letters and digits,
/// scanning left to right with the tokens found so far (`acc`) and the
/// current partial token (`cur`).
pub open spec fn token_acc(s: Seq<char>, acc: Seq<Seq<char>>, cur: Seq<char>) -> Seq<Seq<char>>
    decreases s.len(),
{
    if s.len() == 0 {
        if cur.len() == 0 { acc } else { acc.push(cur) }
    } else if !is_ascii_alnum(s[0]) {
        token_acc(s.drop_first(), if cur.len() == 0 { acc } else { acc.push(cur) }, Seq::empty())
    } else {
        token_acc(s.drop_first(), acc, cur.push(s[0]))
    }
}

/// The lower-cased alphanumeric tokens of a locale identifier.
pub open spec fn spec_tokens(identifier: Seq<char>) -> Seq<Seq<char>> {
    token_acc(crate::text::ascii_lower_seq(identifier), Seq::empty(), Seq::empty())
}

/// A token that marks a traditional Chinese variant.
pub open spec fn is_traditional_marker(t: Seq<char>) -> bool {
    t == "hant"@ || t == "traditional"@ || t == "tw"@ || t == "hk"@ || t == "mo"@
}

/// The language named by the first deciding token from position `i` on:
/// `en`/`english`, or `zh`/`chinese` not followed by a traditional marker.
pub open spec fn language_at(tokens: Seq<Seq<char>>, i: int) -> Option<Language>
    decreases tokens.len() - i,
{
    if i < 0 || i >= tokens.len() {
        None
    } else if tokens[i] == "en"@ || tokens[i] == "english"@ {
        Some(Language::English)
    } else if (tokens[i] == "zh"@ || tokens[i] == "chinese"@) && !(i + 1 < tokens.len()
        && is_traditional_marker(tokens[i + 1])) {
        Some(Language::Chinese)
    } else {
        language_at(tokens, i + 1)
    }
}

/// The interface language a locale identifier asks for, if any.
pub open spec fn spec_from_identifier(identifier: Seq<char>) -> Option<Language> {
    language_at(spec_tokens(identifier), 0)
}

/// The language of the first identifier that names one, else English.
pub open spec fn spec_resolve(candidates: Seq<Seq<char>>) -> Language
    decreases candidates.len(),
{
    if candidates.len() == 0 {
        Language::English
    } else {
        match spec_from_identifier(candidates[0]) {
            Some(l) => l,
            None => spec_resolve(candidates.drop_first()),
        }
    }
}

/// The first candidate that names a language decides: for every list of
/// locale identifiers and every position `k` whose identifier names a
/// language while none before it does, the resolved language is that one.
pub proof fn law_first_naming_candidate_decides(candidates: Seq<Seq<char>>, k: int)
    requires
        0 <= k < candidates.len(),
        spec_from_identifier(candidates[k]) is Some,
        forall|j: int| 0 <= j < k ==> spec_from_identifier(#[trigger] candidates[j]) is None,
    ensures
        spec_resolve(candidates) == spec_from_identifier(candidates[k])->0,
    decreases k,
{
    if k > 0 {
        let rest = candidates.drop_first();
        assert(spec_from_identifier(candidates[0]) is None);
        assert forall|j: int| 0 <= j < k - 1 implies spec_from_identifier(#[trigger] rest[j]) is None by {
            assert(rest[j] == candidates[j + 1]);
        }
        law_first_naming_candidate_decides(rest, k - 1);
    }
}

/// When no candidate names a language, the interface is in English.
pub proof fn law_no_naming_candidate_gives_english(candidates: Seq<Seq<char>>)
    requires
        forall|j: int| 0 <= j < candidates.len() ==> spec_from_identifier(#[trigger] candidates[j]) is None,
    ensures
        spec_resolve(candidates) == Language::English,
    decreases candidates.len(),
{
    if candidates.len() > 0 {
        let rest = candidates.drop_first();
        assert(spec_from_identifier(candidates[0]) is None);
        assert forall|j: int| 0 <= j < rest.len() implies spec_from_identifier(#[trigger] rest[j]) is None by {
            assert(rest[j] == candidates[j + 1]);
        }
        law_no_naming_candidate_gives_english(rest);
    }
}

/// Later sources are consulted exactly when the earlier ones name no
/// language: resolving `first + later` is resolving `later` when nothing in
/// `first` names a language, and resolving `first` otherwise.
pub proof fn law_later_sources_only_when_earlier_name_none(first: Seq<Seq<char>>, later: Seq<Seq<char>>)
    ensures
        (forall|j: int| 0 <= j < first.len() ==> spec_from_identifier(#[trigger] first[j]) is None)
            ==> spec_resolve(first + later) == spec_resolve(later),
        (exists|j: int| 0 <= j < first.len() && spec_from_identifier(#[trigger] first[j]) is Some)
            ==> spec_resolve(first + later) == spec_resolve(first),
    decreases first.len(),
{
    if first.len() > 0 {
        let rest = first.drop_first();
        assert((first + later).drop_first() =~= rest + later);
        assert((first + later)[0] == first[0]);
        law_later_sources_only_when_earlier_name_none(rest, later);
        if spec_from_identifier(first[0]) is None {
            if exists|j: int| 0 <= j < first.len() && spec_from_identifier(#[trigger] first[j]) is Some {
                let j = choose|j: int| 0 <= j < first.len() && spec_from_identifier(#[trigger] first[j]) is Some;
                assert(rest[j - 1] == first[j]);
            }
            assert forall|j: int| 0 <= j < rest.len() && (forall|i: int| 0 <= i < first.len() ==> spec_from_identifier(#[trigger] first[i]) is None)
                implies spec_from_identifier(#[trigger] rest[j]) is None by {
                assert(rest[j] == first[j + 1]);
            }
        }
    } else {
        assert(first + later =~= later);
    }
}

/// An identifier whose first token is `zh` (or `chinese`) and whose next
/// token is no traditional-Chinese marker names Chinese; one whose first
/// token is `en` (or `english`) names English: `zh_CN.UTF-8` and `zh-Hans`
/// ask for Chinese, `en_US` for English.
pub proof fn law_leading_language_token_names_the_language(identifier: Seq<char>)
    ensures
        ({
            let t = spec_tokens(identifier);
            &&& t.len() > 0 && (t[0] == "en"@ || t[0] == "english"@) ==> spec_from_identifier(identifier) == Some(Language::English)
            &&& t.len() > 0 && (t[0] == "zh"@ || t[0] == "chinese"@) && !(t.len() > 1 && is_traditional_marker(t[1]))
                ==> spec_from_identifier(identifier) == Some(Language::Chinese)
        }),
{
    reveal_strlit("en");
    reveal_strlit("english");
    reveal_strlit("zh");
    reveal_strlit("chinese");
    let t = spec_tokens(identifier);
    if t.len() > 0 && (t[0] == "zh"@ || t[0] == "chinese"@) {
        assert(t[0] != "en"@ && t[0] != "english"@) by {
            if t[0] == "zh"@ {
                assert(t[0].len() == 2 && "english"@.len() == 7);
                assert(t[0][0] == 'z' && "en"@[0] == 'e');
            } else {
                assert(t[0].len() == 7 && "en"@.len() == 2);
                assert(t[0][0] == 'c' && "english"@[0] == 'e');
            }
        }
    }
    assert(spec_from_identifier(identifier) == language_at(t, 0));
}

fn is_alnum(c: char) -> (r: bool)
    ensures
        r == is_ascii_alnum(c),
{
    ('a' <= c && c <= 'z') || ('A' <= c && c <= 'Z') || ('0' <= c && c <= '9')
}

fn tokens_of(identifier: &str) -> (r: Vec<String>)
    ensures
        crate::pathname::views(r@) == spec_tokens(identifier@),
{
    let raw = chars_of(identifier);
    let mut v: Vec<char> = Vec::new();
    let mut k: usize = 0;
    while k < raw.len()
        invariant
            0 <= k <= raw@.len(),
            v@ == crate::text::ascii_lower_seq(raw@.subrange(0, k as int)),
        decreases raw@.len() - k,
    {
        v.push(to_ascii_lower(raw[k]));
        assert(crate::text::ascii_lower_seq(raw@.subrange(0, k + 1)) =~= crate::text::ascii_lower_seq(
            raw@.subrange(0, k as int),
        ).push(ascii_lower(raw@[k as int])));
        k = k + 1;
    }
    assert(raw@.subrange(0, raw@.len() as int) =~= raw@);
    let mut acc: Vec<String> = Vec::new();
    let mut cur: Vec<char> = Vec::new();
    let mut i: usize = 0;
    assert(crate::pathname::views(acc@) =~= Seq::<Seq<char>>::empty());
    assert(cur@ =~= Seq::<char>::empty());
    assert(v@.subrange(0, v@.len() as int) =~= v@);
    while i < v.len()
        invariant
            0 <= i <= v@.len(),
            v@ == crate::text::ascii_lower_seq(identifier@),
            token_acc(v@.subrange(i as int, v@.len() as int), crate::pathname::views(acc@), cur@)
                == spec_tokens(identifier@),
        decreases v@.len() - i,
    {
        let ghost rest = v@.subrange(i as int, v@.len() as int);
        assert(rest.drop_first() =~= v@.subrange(i + 1, v@.len() as int));
        if !is_alnum(v[i]) {
            if cur.len() > 0 {
                let ghost before = acc@;
                let piece = string_from_chars(&cur);
                acc.push(piece);
                assert(crate::pathname::views(acc@) =~= crate::pathname::views(before).push(cur@));
            }
            cur = Vec::new();
        } else {
            cur.push(v[i]);
        }
        i = i + 1;
    }
    if cur.len() > 0 {
        let ghost before = acc@;
        let piece = string_from_chars(&cur);
        acc.push(piece);
        assert(crate::pathname::views(acc@) =~= crate::pathname::views(before).push(cur@));
    }
    acc
}

fn is_traditional(t: &str) -> (r: bool)
    ensures
        r == is_traditional_marker(t@),
{
    str_eq(t, "hant") || str_eq(t, "traditional") || str_eq(t, "tw") || str_eq(t, "hk") || str_eq(t, "mo")
}

impl Language {
    /// The language a locale identifier (such as `zh-Hans-CN`, `en_US.UTF-8`
    /// or `Chinese`) asks for: the first `en`/`english` token gives English,
    /// the first `zh`/`chinese` token not followed by a traditional-variant
    /// marker gives Chinese; anything else gives nothing.
    pub fn from_identifier(identifier: &str) -> (r: Option<Language>)
        ensures
            r == spec_from_identifier(identifier@),
    {
        let tokens = tokens_of(identifier);
        let ghost tv = crate::pathname::views(tokens@);
        let mut i: usize = 0;
        while i < tokens.len()
            invariant
                0 <= i <= tokens@.len(),
                tv == crate::pathname::views(tokens@),
                tv == spec_tokens(identifier@),
                tv.len() == tokens@.len(),
                language_at(tv, 0) == language_at(tv, i as int),
            decreases tokens@.len() - i,
        {
            assert(tv[i as int] == tokens@[i as int]@);
            let t = tokens[i].as_str();
            if str_eq(t, "en") || str_eq(t, "english") {
                return Some(Language::English);
            }
            if str_eq(t, "zh") || str_eq(t, "chinese") {
                let traditional_next = i + 1 < tokens.len() && is_traditional(tokens[i + 1].as_str());
                proof {
                    if i + 1 < tokens@.len() {
                        assert(tv[i + 1] == tokens@[i + 1]@);
                    }
                }
                if !traditional_next {
                    return Some(Language::Chinese);
                }
            }
            i = i + 1;
        }
        None
    }

    /// The language of the first identifier in `candidates` (in order of
    /// preference) that names one; English when none does.
    pub fn resolve(candidates: &Vec<String>) -> (r: Language)
        ensures
            r == spec_resolve(crate::pathname::views(candidates@)),
    {
        let ghost cv = crate::pathname::views(candidates@);
        assert(cv.subrange(0, cv.len() as int) =~= cv);
        let mut i: usize = 0;
        while i < candidates.len()
            invariant
                0 <= i <= candidates@.len(),
                cv == crate::pathname::views(candidates@),
                cv.len() == candidates@.len(),
                spec_resolve(cv) == spec_resolve(cv.subrange(i as int, cv.len() as int)),
            decreases candidates@.len() - i,
        {
            let ghost rest = cv.subrange(i as int, cv.len() as int);
            assert(rest[0] == candidates@[i as int]@);
            assert(rest.drop_first() =~= cv.subrange(i + 1, cv.len() as int));
            match Language::from_identifier(candidates[i].as_str()) {
                Some(l) => return l,
                None => {},
            }
            i = i + 1;
        }
        Language::English
    }

    /// The interface language: the first of, in order, the explicit
    /// override, the Apple language preference, the system's preferred
    /// locales, and the locale environment variables, that names one;
    /// English otherwise. The system locales are asked for here; the rest
    /// is what the application read from its environment.
    pub fn current_from(
        override_language: Option<String>,
        apple_languages: Option<String>,
        environment: Vec<String>,
    ) -> (r: Language)
        ensures
            exists|locales: Vec<String>| {
                &&& reported_by_system(locales)
                &&& r == spec_resolve(
                    opt_seq(override_language) + opt_seq(apple_languages) + crate::pathname::views(locales@)
                        + crate::pathname::views(environment@),
                )
            },
    {
        let ghost o = opt_seq(override_language);
        let ghost a = opt_seq(apple_languages);
        let ghost env = crate::pathname::views(environment@);
        let mut candidates: Vec<String> = Vec::new();
        match override_language {
            Some(v) => candidates.push(v),
            None => {},
        }
        match apple_languages {
            Some(v) => candidates.push(v),
            None => {},
        }
        assert(crate::pathname::views(candidates@) =~= o + a);
        let read_locales = system_locales;
        let mut locales = read_locales();
        let ghost reported = locales;
        let ghost lv = crate::pathname::views(locales@);
        candidates.append(&mut locales);
        assert(crate::pathname::views(candidates@) =~= o + a + lv);
        let mut environment = environment;
        candidates.append(&mut environment);
        assert(crate::pathname::views(candidates@) =~= o + a + lv + env);
        let r = Language::resolve(&candidates);
        assert(reported_by_system(reported));
        r
    }
}

/// `locales` is a list the system's locale query (`system_locales`) can
/// give back; nothing else is known of it.
pub closed spec fn reported_by_system(locales: Vec<String>) -> bool {
    call_ensures(system_locales, (), locales)
}

/// The identifier held by an optional value, as a sequence of zero or
/// one identifiers.
pub open spec fn opt_seq(v: Option<String>) -> Seq<Seq<char>> {
    match v {
        Some(s) => seq![s@],
        None => Seq::empty(),
    }
}

/// The system's preferred locales, most preferred first
/// (`sys_locale::get_locales`). What comes back depends on the machine and
/// its settings, so nothing is stated of it.
#[verifier::external_body]
fn system_locales() -> (r: Vec<String>) {
    sys_locale::get_locales().collect()
}

} // verus!
