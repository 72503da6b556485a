use envsafe_cli::api::{variables_of, EnvVariable};

#[test]
fn test_env_variable_creation() {
    let var = EnvVariable {
        key: "TEST_KEY".to_string(),
        value: "test_value".to_string(),
        updated_at: None,
    };

    assert_eq!(var.key, "TEST_KEY");
    assert_eq!(var.value, "test_value");
    assert!(var.updated_at.is_none());
}

#[test]
fn fetched_list_later_duplicate_wins() {
    let list = vec![
        EnvVariable { key: "A".to_string(), value: "1".to_string(), updated_at: None },
        EnvVariable { key: "B".to_string(), value: "2".to_string(), updated_at: None },
        EnvVariable { key: "A".to_string(), value: "3".to_string(), updated_at: None },
    ];
    let vars = variables_of(&list);
    assert_eq!(vars.len(), 2);
    assert_eq!(vars.get("A").unwrap(), "3");
    assert_eq!(vars.get("B").unwrap(), "2");
}
