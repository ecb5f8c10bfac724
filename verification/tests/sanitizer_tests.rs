use api_gen::sanitizer::{create_folder_path, create_input_type_name_from_path};

#[test]
fn input_type_name_without_prefix() {
    let name = create_input_type_name_from_path(&"/users/{id}".to_string(), None);
    assert_eq!(name, "usersid_Params");
}

#[test]
fn input_type_name_with_method_prefix() {
    let prefix = "post".to_string();
    let name = create_input_type_name_from_path(&"/users/{id}".to_string(), Some(&prefix));
    assert_eq!(name, "postusersid_Params");
}

#[test]
fn input_type_name_flattens_dashes() {
    let name = create_input_type_name_from_path(&"/api-v1/things".to_string(), None);
    assert_eq!(name, "api_v1things_Params");
}

#[test]
fn folder_path_drops_the_file_segment() {
    assert_eq!(create_folder_path(&"lib/types.ts".to_string()), "lib");
    assert_eq!(
        create_folder_path(&"src/generated/types.ts".to_string()),
        "src/generated"
    );
}

#[test]
fn folder_path_keeps_plain_segments() {
    assert_eq!(create_folder_path(&"lib/out".to_string()), "lib/out");
}
