use rscholar::admin_key::{
    configured_admin_key, init_admin_action, deployment_admin_key_from_pairs, initial_admin_key_from_pairs,
    startup_admin_action, AdminStartup, DeploymentAdminKey,
};

#[test]
fn test_deployment_admin_key_prefers_password_env() {
    let configured = deployment_admin_key_from_pairs(&[
        ("SCHOLARLENS_ADMIN_KEY", "fallback-admin-key"),
        ("SCHOLARLENS_ADMIN_PASSWORD", " deploy-admin-password-2026 "),
    ])
    .expect("deployment key");

    assert_eq!(configured.source, "SCHOLARLENS_ADMIN_PASSWORD");
    assert_eq!(configured.value, "deploy-admin-password-2026");
}

#[test]
fn test_deployment_admin_key_ignores_empty_values() {
    let configured = deployment_admin_key_from_pairs(&[
        ("SCHOLARLENS_ADMIN_PASSWORD", "   "),
        ("SCHOLARLENS_ADMIN_KEY", "fallback-admin-key"),
    ])
    .expect("fallback key");

    assert_eq!(configured.source, "SCHOLARLENS_ADMIN_KEY");
    assert_eq!(configured.value, "fallback-admin-key");
}

#[test]
fn test_initial_admin_key_defaults_to_123456() {
    let configured = initial_admin_key_from_pairs(&[
        ("SCHOLARLENS_ADMIN_PASSWORD", ""),
        ("SCHOLARLENS_ADMIN_KEY", "   "),
    ]);

    assert_eq!(configured.source, "default");
    assert_eq!(configured.value, "123456");
}

#[test]
fn deployment_key_absent_without_recognised_variables() {
    assert!(deployment_admin_key_from_pairs(&[]).is_none());
    assert!(deployment_admin_key_from_pairs(&[("OTHER_VARIABLE", "secret-value")]).is_none());
}

#[test]
fn deployment_key_first_non_blank_value_of_a_variable_wins() {
    let configured = deployment_admin_key_from_pairs(&[
        ("SCHOLARLENS_ADMIN_KEY", "first-key"),
        ("SCHOLARLENS_ADMIN_KEY", "second-key"),
    ])
    .expect("key");
    assert_eq!(configured.value, "first-key");
}

#[test]
fn command_line_key_is_trimmed_and_named() {
    let configured = configured_admin_key(
        Some("  my-admin-key  "),
        &[("SCHOLARLENS_ADMIN_PASSWORD", "ignored-password")],
    );
    assert_eq!(configured.source, "--key");
    assert_eq!(configured.value, "my-admin-key");

    let from_env = configured_admin_key(None, &[("SCHOLARLENS_ADMIN_PASSWORD", "env-password")]);
    assert_eq!(from_env.source, "SCHOLARLENS_ADMIN_PASSWORD");
    assert_eq!(from_env.value, "env-password");
}

#[test]
fn startup_synchronizes_creates_or_keeps() {
    let deployment = DeploymentAdminKey {
        source: "SCHOLARLENS_ADMIN_KEY".to_string(),
        value: "deploy-key".to_string(),
    };
    assert_eq!(
        startup_admin_action(Some(deployment.clone()), true),
        AdminStartup::Synchronize(deployment)
    );
    assert_eq!(startup_admin_action(None, true), AdminStartup::Keep);
    match startup_admin_action(None, false) {
        AdminStartup::CreateInitial(key) => {
            assert_eq!(key.source, "default");
            assert_eq!(key.value, "123456");
        }
        other => panic!("unexpected startup action: {:?}", other),
    }
}

#[test]
fn init_admin_skips_an_existing_admin_and_otherwise_uses_the_configured_key() {
    assert!(init_admin_action(true, Some("given"), &[]).is_none());
    let created = init_admin_action(false, Some("  given  "), &[]).expect("created");
    assert_eq!(created.source, "--key");
    assert_eq!(created.value, "given");
    let from_default = init_admin_action(false, None, &[]).expect("created");
    assert_eq!(from_default.value, "123456");
}
