//! The editor's commands: their names, their key bindings on each
//! platform, and which entry of the Open Recent menu each recent-file
//! command opens.

use vstd::prelude::*;
use crate::text::str_eq;

verus! {

/// The commands of the editor, in the `mieli` namespace.
#[derive(Clone, Copy, Debug, PartialEq, Eq, Structural)]
pub enum AppAction {
    NewFile,
    OpenPath,
    Save,
    SaveAs,
    SaveAll,
    CloseTab,
    ToggleSidebar,
    NextTab,
    PreviousTab,
    RefreshTree,
    Quit,
    OpenWindow,
    OpenRecent1,
    OpenRecent2,
    OpenRecent3,
    OpenRecent4,
    OpenRecent5,
    OpenRecent6,
    OpenRecent7,
    OpenRecent8,
    OpenRecent9,
    OpenRecent10,
    OpenRecent11,
    OpenRecent12,
    OpenRecent13,
    OpenRecent14,
    OpenRecent15,
    OpenRecent16,
    OpenRecent17,
    OpenRecent18,
    OpenRecent19,
    OpenRecent20,
}

/// The qualified name of a command.
pub open spec fn spec_action_name(a: AppAction) -> Seq<char> {
    match a {
        AppAction::NewFile => "mieli::NewFile"@,
        AppAction::OpenPath => "mieli::OpenPath"@,
        AppAction::Save => "mieli::Save"@,
        AppAction::SaveAs => "mieli::SaveAs"@,
        AppAction::SaveAll => "mieli::SaveAll"@,
        AppAction::CloseTab => "mieli::CloseTab"@,
        AppAction::ToggleSidebar => "mieli::ToggleSidebar"@,
        AppAction::NextTab => "mieli::NextTab"@,
        AppAction::PreviousTab => "mieli::PreviousTab"@,
        AppAction::RefreshTree => "mieli::RefreshTree"@,
        AppAction::Quit => "mieli::Quit"@,
        AppAction::OpenWindow => "mieli::OpenWindow"@,
        AppAction::OpenRecent1 => "mieli::OpenRecent1"@,
        AppAction::OpenRecent2 => "mieli::OpenRecent2"@,
        AppAction::OpenRecent3 => "mieli::OpenRecent3"@,
        AppAction::OpenRecent4 => "mieli::OpenRecent4"@,
        AppAction::OpenRecent5 => "mieli::OpenRecent5"@,
        AppAction::OpenRecent6 => "mieli::OpenRecent6"@,
        AppAction::OpenRecent7 => "mieli::OpenRecent7"@,
        AppAction::OpenRecent8 => "mieli::OpenRecent8"@,
        AppAction::OpenRecent9 => "mieli::OpenRecent9"@,
        AppAction::OpenRecent10 => "mieli::OpenRecent10"@,
        AppAction::OpenRecent11 => "mieli::OpenRecent11"@,
        AppAction::OpenRecent12 => "mieli::OpenRecent12"@,
        AppAction::OpenRecent13 => "mieli::OpenRecent13"@,
        AppAction::OpenRecent14 => "mieli::OpenRecent14"@,
        AppAction::OpenRecent15 => "mieli::OpenRecent15"@,
        AppAction::OpenRecent16 => "mieli::OpenRecent16"@,
        AppAction::OpenRecent17 => "mieli::OpenRecent17"@,
        AppAction::OpenRecent18 => "mieli::OpenRecent18"@,
        AppAction::OpenRecent19 => "mieli::OpenRecent19"@,
        AppAction::OpenRecent20 => "mieli::OpenRecent20"@,
    }
}

/// The Open Recent entry (counted from 0) that a command opens.
pub open spec fn spec_recent_position(a: AppAction) -> Option<usize> {
    match a {
        AppAction::OpenRecent1 => Some(0usize),
        AppAction::OpenRecent2 => Some(1usize),
        AppAction::OpenRecent3 => Some(2usize),
        AppAction::OpenRecent4 => Some(3usize),
        AppAction::OpenRecent5 => Some(4usize),
        AppAction::OpenRecent6 => Some(5usize),
        AppAction::OpenRecent7 => Some(6usize),
        AppAction::OpenRecent8 => Some(7usize),
        AppAction::OpenRecent9 => Some(8usize),
        AppAction::OpenRecent10 => Some(9usize),
        AppAction::OpenRecent11 => Some(10usize),
        AppAction::OpenRecent12 => Some(11usize),
        AppAction::OpenRecent13 => Some(12usize),
        AppAction::OpenRecent14 => Some(13usize),
        AppAction::OpenRecent15 => Some(14usize),
        AppAction::OpenRecent16 => Some(15usize),
        AppAction::OpenRecent17 => Some(16usize),
        AppAction::OpenRecent18 => Some(17usize),
        AppAction::OpenRecent19 => Some(18usize),
        AppAction::OpenRecent20 => Some(19usize),
        _ => None,
    }
}

impl AppAction {
    /// The qualified name of this command (`mieli::` and its name).
    pub fn name(self) -> (r: &'static str)
        ensures
            r@ == spec_action_name(self),
    {
        match self {
            AppAction::NewFile => "mieli::NewFile",
            AppAction::OpenPath => "mieli::OpenPath",
            AppAction::Save => "mieli::Save",
            AppAction::SaveAs => "mieli::SaveAs",
            AppAction::SaveAll => "mieli::SaveAll",
            AppAction::CloseTab => "mieli::CloseTab",
            AppAction::ToggleSidebar => "mieli::ToggleSidebar",
            AppAction::NextTab => "mieli::NextTab",
            AppAction::PreviousTab => "mieli::PreviousTab",
            AppAction::RefreshTree => "mieli::RefreshTree",
            AppAction::Quit => "mieli::Quit",
            AppAction::OpenWindow => "mieli::OpenWindow",
            AppAction::OpenRecent1 => "mieli::OpenRecent1",
            AppAction::OpenRecent2 => "mieli::OpenRecent2",
            AppAction::OpenRecent3 => "mieli::OpenRecent3",
            AppAction::OpenRecent4 => "mieli::OpenRecent4",
            AppAction::OpenRecent5 => "mieli::OpenRecent5",
            AppAction::OpenRecent6 => "mieli::OpenRecent6",
            AppAction::OpenRecent7 => "mieli::OpenRecent7",
            AppAction::OpenRecent8 => "mieli::OpenRecent8",
            AppAction::OpenRecent9 => "mieli::OpenRecent9",
            AppAction::OpenRecent10 => "mieli::OpenRecent10",
            AppAction::OpenRecent11 => "mieli::OpenRecent11",
            AppAction::OpenRecent12 => "mieli::OpenRecent12",
            AppAction::OpenRecent13 => "mieli::OpenRecent13",
            AppAction::OpenRecent14 => "mieli::OpenRecent14",
            AppAction::OpenRecent15 => "mieli::OpenRecent15",
            AppAction::OpenRecent16 => "mieli::OpenRecent16",
            AppAction::OpenRecent17 => "mieli::OpenRecent17",
            AppAction::OpenRecent18 => "mieli::OpenRecent18",
            AppAction::OpenRecent19 => "mieli::OpenRecent19",
            AppAction::OpenRecent20 => "mieli::OpenRecent20",
        }
    }

    /// The Open Recent entry this command opens, counted from 0.
    pub fn recent_position(self) -> (r: Option<usize>)
        ensures
            r == spec_recent_position(self),
    {
        match self {
            AppAction::OpenRecent1 => Some(0),
            AppAction::OpenRecent2 => Some(1),
            AppAction::OpenRecent3 => Some(2),
            AppAction::OpenRecent4 => Some(3),
            AppAction::OpenRecent5 => Some(4),
            AppAction::OpenRecent6 => Some(5),
            AppAction::OpenRecent7 => Some(6),
            AppAction::OpenRecent8 => Some(7),
            AppAction::OpenRecent9 => Some(8),
            AppAction::OpenRecent10 => Some(9),
            AppAction::OpenRecent11 => Some(10),
            AppAction::OpenRecent12 => Some(11),
            AppAction::OpenRecent13 => Some(12),
            AppAction::OpenRecent14 => Some(13),
            AppAction::OpenRecent15 => Some(14),
            AppAction::OpenRecent16 => Some(15),
            AppAction::OpenRecent17 => Some(16),
            AppAction::OpenRecent18 => Some(17),
            AppAction::OpenRecent19 => Some(18),
            AppAction::OpenRecent20 => Some(19),
            _ => None,
        }
    }

    /// The command that opens Open Recent entry `index`, for the twenty
    /// entries the menu shows.
    pub fn recent(index: usize) -> (r: Option<AppAction>)
        ensures
            index < 20 ==> (r matches Some(a) && spec_recent_position(a) == Some(index)),
            index >= 20 ==> r is None,
    {
        match index {
            0 => Some(AppAction::OpenRecent1),
            1 => Some(AppAction::OpenRecent2),
            2 => Some(AppAction::OpenRecent3),
            3 => Some(AppAction::OpenRecent4),
            4 => Some(AppAction::OpenRecent5),
            5 => Some(AppAction::OpenRecent6),
            6 => Some(AppAction::OpenRecent7),
            7 => Some(AppAction::OpenRecent8),
            8 => Some(AppAction::OpenRecent9),
            9 => Some(AppAction::OpenRecent10),
            10 => Some(AppAction::OpenRecent11),
            11 => Some(AppAction::OpenRecent12),
            12 => Some(AppAction::OpenRecent13),
            13 => Some(AppAction::OpenRecent14),
            14 => Some(AppAction::OpenRecent15),
            15 => Some(AppAction::OpenRecent16),
            16 => Some(AppAction::OpenRecent17),
            17 => Some(AppAction::OpenRecent18),
            18 => Some(AppAction::OpenRecent19),
            19 => Some(AppAction::OpenRecent20),
            _ => None,
        }
    }
}

/// A command that has a key binding.
#[derive(Clone, Copy, Debug, PartialEq, Eq, Structural)]
pub enum BindingAction {
    NewFile,
    Save,
    SaveAs,
    CloseTab,
    ToggleSidebar,
    Quit,
    NextTab,
    PreviousTab,
}

/// A key chord bound to a command.
#[derive(Clone, Copy, Debug, PartialEq, Eq)]
pub struct BindingSpec {
    pub chord: &'static str,
    pub action: BindingAction,
}

impl BindingSpec {
    /// The binding of `chord` to `action`.
    pub fn new(chord: &'static str, action: BindingAction) -> (r: BindingSpec)
        ensures
            r.chord == chord,
            r.action == action,
    {
        BindingSpec { chord, action }
    }
}

/// The chord for a command: the platform's command key (`cmd` on macOS,
/// else `ctrl`) with `suffix`.
pub open spec fn platform_chord(command: Seq<char>, suffix: Seq<char>) -> Seq<char> {
    if command == "cmd"@ {
        "cmd-"@ + suffix
    } else {
        "ctrl-"@ + suffix
    }
}

/// The key bindings for the platform whose command key is `command`: the
/// file and window commands use the command key; tab navigation uses
/// `ctrl-tab` and `ctrl-shift-tab` everywhere.
pub open spec fn spec_binding_specs(command: Seq<char>) -> Seq<(Seq<char>, BindingAction)> {
    seq![
        (platform_chord(command, "n"@), BindingAction::NewFile),
        (platform_chord(command, "s"@), BindingAction::Save),
        (platform_chord(command, "shift-s"@), BindingAction::SaveAs),
        (platform_chord(command, "w"@), BindingAction::CloseTab),
        (platform_chord(command, "shift-l"@), BindingAction::ToggleSidebar),
        (platform_chord(command, "q"@), BindingAction::Quit),
        ("ctrl-tab"@, BindingAction::NextTab),
        ("ctrl-shift-tab"@, BindingAction::PreviousTab),
    ]
}

/// What a list of bindings says, chord by chord.
pub open spec fn binding_views(v: Seq<BindingSpec>) -> Seq<(Seq<char>, BindingAction)> {
    v.map_values(|b: BindingSpec| (b.chord@, b.action))
}

/// The key bindings for the platform whose command key is `command`.
pub fn binding_specs(command: &str) -> (r: Vec<BindingSpec>)
    ensures
        binding_views(r@) == spec_binding_specs(command@),
{
    let cmd = str_eq(command, "cmd");
    let mut v: Vec<BindingSpec> = Vec::new();
    v.push(BindingSpec::new(if cmd { "cmd-n" } else { "ctrl-n" }, BindingAction::NewFile));
    v.push(BindingSpec::new(if cmd { "cmd-s" } else { "ctrl-s" }, BindingAction::Save));
    v.push(BindingSpec::new(if cmd { "cmd-shift-s" } else { "ctrl-shift-s" }, BindingAction::SaveAs));
    v.push(BindingSpec::new(if cmd { "cmd-w" } else { "ctrl-w" }, BindingAction::CloseTab));
    v.push(BindingSpec::new(if cmd { "cmd-shift-l" } else { "ctrl-shift-l" }, BindingAction::ToggleSidebar));
    v.push(BindingSpec::new(if cmd { "cmd-q" } else { "ctrl-q" }, BindingAction::Quit));
    v.push(BindingSpec::new("ctrl-tab", BindingAction::NextTab));
    v.push(BindingSpec::new("ctrl-shift-tab", BindingAction::PreviousTab));
    proof {
        reveal_strlit("cmd-n");
        reveal_strlit("ctrl-n");
        reveal_strlit("cmd-s");
        reveal_strlit("ctrl-s");
        reveal_strlit("cmd-shift-s");
        reveal_strlit("ctrl-shift-s");
        reveal_strlit("cmd-w");
        reveal_strlit("ctrl-w");
        reveal_strlit("cmd-shift-l");
        reveal_strlit("ctrl-shift-l");
        reveal_strlit("cmd-q");
        reveal_strlit("ctrl-q");
        reveal_strlit("cmd-");
        reveal_strlit("ctrl-");
        reveal_strlit("n");
        reveal_strlit("s");
        reveal_strlit("shift-s");
        reveal_strlit("w");
        reveal_strlit("shift-l");
        reveal_strlit("q");
        assert(platform_chord(command@, "n"@) =~= v@[0].chord@);
        assert(platform_chord(command@, "s"@) =~= v@[1].chord@);
        assert(platform_chord(command@, "shift-s"@) =~= v@[2].chord@);
        assert(platform_chord(command@, "w"@) =~= v@[3].chord@);
        assert(platform_chord(command@, "shift-l"@) =~= v@[4].chord@);
        assert(platform_chord(command@, "q"@) =~= v@[5].chord@);
        assert(binding_views(v@) =~= spec_binding_specs(command@));
    }
    v
}

/// The label of an Open Recent entry: the path as it is.
pub fn recent_label(path: &str) -> (r: String)
    ensures
        r@ == path@,
{
    path.to_string()
}

} // verus!
