use mieli::actions::{AppAction, BindingAction, BindingSpec, binding_specs, recent_label};

#[test]
fn unit_actions_use_the_mieli_namespace() {
    let names = [
        AppAction::NewFile.name(),
        AppAction::OpenPath.name(),
        AppAction::Save.name(),
        AppAction::SaveAs.name(),
        AppAction::SaveAll.name(),
        AppAction::CloseTab.name(),
        AppAction::ToggleSidebar.name(),
        AppAction::NextTab.name(),
        AppAction::PreviousTab.name(),
        AppAction::RefreshTree.name(),
        AppAction::Quit.name(),
        AppAction::OpenWindow.name(),
        AppAction::OpenRecent1.name(),
        AppAction::OpenRecent2.name(),
        AppAction::OpenRecent3.name(),
        AppAction::OpenRecent4.name(),
        AppAction::OpenRecent5.name(),
        AppAction::OpenRecent6.name(),
        AppAction::OpenRecent7.name(),
        AppAction::OpenRecent8.name(),
        AppAction::OpenRecent9.name(),
        AppAction::OpenRecent10.name(),
        AppAction::OpenRecent11.name(),
        AppAction::OpenRecent12.name(),
        AppAction::OpenRecent13.name(),
        AppAction::OpenRecent14.name(),
        AppAction::OpenRecent15.name(),
        AppAction::OpenRecent16.name(),
        AppAction::OpenRecent17.name(),
        AppAction::OpenRecent18.name(),
        AppAction::OpenRecent19.name(),
        AppAction::OpenRecent20.name(),
    ];

    assert_eq!(
        names,
        [
            "mieli::NewFile",
            "mieli::OpenPath",
            "mieli::Save",
            "mieli::SaveAs",
            "mieli::SaveAll",
            "mieli::CloseTab",
            "mieli::ToggleSidebar",
            "mieli::NextTab",
            "mieli::PreviousTab",
            "mieli::RefreshTree",
            "mieli::Quit",
            "mieli::OpenWindow",
            "mieli::OpenRecent1",
            "mieli::OpenRecent2",
            "mieli::OpenRecent3",
            "mieli::OpenRecent4",
            "mieli::OpenRecent5",
            "mieli::OpenRecent6",
            "mieli::OpenRecent7",
            "mieli::OpenRecent8",
            "mieli::OpenRecent9",
            "mieli::OpenRecent10",
            "mieli::OpenRecent11",
            "mieli::OpenRecent12",
            "mieli::OpenRecent13",
            "mieli::OpenRecent14",
            "mieli::OpenRecent15",
            "mieli::OpenRecent16",
            "mieli::OpenRecent17",
            "mieli::OpenRecent18",
            "mieli::OpenRecent19",
            "mieli::OpenRecent20",
        ]
    );
}

#[test]
fn platform_binding_tables_use_native_commands_and_cross_platform_tab_navigation() {
    assert_eq!(
        binding_specs("cmd"),
        vec![
            BindingSpec::new("cmd-n", BindingAction::NewFile),
            BindingSpec::new("cmd-s", BindingAction::Save),
            BindingSpec::new("cmd-shift-s", BindingAction::SaveAs),
            BindingSpec::new("cmd-w", BindingAction::CloseTab),
            BindingSpec::new("cmd-shift-l", BindingAction::ToggleSidebar),
            BindingSpec::new("cmd-q", BindingAction::Quit),
            BindingSpec::new("ctrl-tab", BindingAction::NextTab),
            BindingSpec::new("ctrl-shift-tab", BindingAction::PreviousTab),
        ]
    );
    assert_eq!(
        binding_specs("ctrl"),
        vec![
            BindingSpec::new("ctrl-n", BindingAction::NewFile),
            BindingSpec::new("ctrl-s", BindingAction::Save),
            BindingSpec::new("ctrl-shift-s", BindingAction::SaveAs),
            BindingSpec::new("ctrl-w", BindingAction::CloseTab),
            BindingSpec::new("ctrl-shift-l", BindingAction::ToggleSidebar),
            BindingSpec::new("ctrl-q", BindingAction::Quit),
            BindingSpec::new("ctrl-tab", BindingAction::NextTab),
            BindingSpec::new("ctrl-shift-tab", BindingAction::PreviousTab),
        ]
    );
}

#[test]
fn recent_actions_map_to_all_twenty_zero_based_positions() {
    let positions = [
        AppAction::OpenRecent1.recent_position(),
        AppAction::OpenRecent2.recent_position(),
        AppAction::OpenRecent3.recent_position(),
        AppAction::OpenRecent4.recent_position(),
        AppAction::OpenRecent5.recent_position(),
        AppAction::OpenRecent6.recent_position(),
        AppAction::OpenRecent7.recent_position(),
        AppAction::OpenRecent8.recent_position(),
        AppAction::OpenRecent9.recent_position(),
        AppAction::OpenRecent10.recent_position(),
        AppAction::OpenRecent11.recent_position(),
        AppAction::OpenRecent12.recent_position(),
        AppAction::OpenRecent13.recent_position(),
        AppAction::OpenRecent14.recent_position(),
        AppAction::OpenRecent15.recent_position(),
        AppAction::OpenRecent16.recent_position(),
        AppAction::OpenRecent17.recent_position(),
        AppAction::OpenRecent18.recent_position(),
        AppAction::OpenRecent19.recent_position(),
        AppAction::OpenRecent20.recent_position(),
    ];

    assert_eq!(positions, core::array::from_fn(|index| Some(index)));
}

#[test]
fn recent_menu_entries_map_back_to_their_commands() {
    for index in 0..20 {
        let action = AppAction::recent(index).unwrap();
        assert_eq!(action.recent_position(), Some(index));
    }
    assert_eq!(AppAction::recent(20), None);
    assert_eq!(AppAction::Save.recent_position(), None);
}

#[test]
fn recent_labels_show_the_whole_path() {
    assert_eq!(recent_label("/notes/A.md"), "/notes/A.md");
}
