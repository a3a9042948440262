use makerpnp::views::{project_path_from_view_path, view_path_from_project_path};

#[test]
fn view_path_survives_the_project_path() {
    for view_path in ["/phases/top", "", "/parts", "/pcbs/pcb=1"] {
        let project_path = project_path_from_view_path(&view_path.to_string());
        assert_eq!(project_path, format!("/project{}", view_path));
        assert_eq!(view_path_from_project_path(&project_path), Some(view_path.to_string()));
    }
}

#[test]
fn view_path_is_the_text_between_the_first_two_project_markers() {
    assert_eq!(view_path_from_project_path(&"/other".to_string()), None);
    assert_eq!(view_path_from_project_path(&"a/projectb/projectc".to_string()), Some("b".to_string()));
}
