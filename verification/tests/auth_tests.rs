use tileworld::auth::AuthState;
use tileworld::types::UserRole;

#[test]
fn test_register_and_login() {
    let mut auth = AuthState::new();

    let user_id = auth.register_user("testuser".to_string(), "password123".to_string()).unwrap();
    assert!(user_id != 0);

    let response = auth.login(
        "testuser".to_string(),
        "password123".to_string(),
        "127.0.0.1".to_string(),
    );
    assert!(response.success);
    assert!(response.token.is_some());
}

#[test]
fn test_invalid_login() {
    let mut auth = AuthState::new();
    let response = auth.login("fake".to_string(), "wrong".to_string(), "127.0.0.1".to_string());
    assert!(!response.success);
}

#[test]
fn register_rejects_each_bad_input_with_its_message() {
    let mut auth = AuthState::new();
    auth.register_user("taken".to_string(), "password123".to_string()).unwrap();

    let dup = auth.register_user("taken".to_string(), "password123".to_string());
    assert_eq!(dup.unwrap_err(), "Username j\u{e1} existe");

    let short_name = auth.register_user("ab".to_string(), "password123".to_string());
    assert_eq!(short_name.unwrap_err(), "Username deve ter entre 3 e 20 caracteres");

    let long_name = auth.register_user("a".repeat(21), "password123".to_string());
    assert_eq!(long_name.unwrap_err(), "Username deve ter entre 3 e 20 caracteres");

    let short_password = auth.register_user("fine".to_string(), "12345".to_string());
    assert_eq!(short_password.unwrap_err(), "Senha deve ter pelo menos 6 caracteres");
}

#[test]
fn wrong_password_is_rejected() {
    let mut auth = AuthState::new();
    auth.register_user("carol".to_string(), "password123".to_string()).unwrap();
    let response = auth.login("carol".to_string(), "different".to_string(), "::1".to_string());
    assert!(!response.success);
    assert!(response.token.is_none());
    assert_eq!(response.message, "Usu\u{e1}rio ou senha inv\u{e1}lidos");
    assert!(response.role.is_none());
}

#[test]
fn login_greets_and_issues_session() {
    let mut auth = AuthState::new();
    auth.register_user("dave".to_string(), "password123".to_string()).unwrap();
    let response = auth.login("dave".to_string(), "password123".to_string(), "::1".to_string());
    assert!(response.success);
    assert_eq!(response.message, "Bem-vindo, dave!");
    assert_eq!(response.role, Some(UserRole::Player));
    assert_eq!(auth.sessions.len(), 1);
}

#[test]
fn validate_session_resolves_live_tokens_only() {
    let mut auth = AuthState::new();
    auth.register_user("erin".to_string(), "password123".to_string()).unwrap();
    let response = auth.login("erin".to_string(), "password123".to_string(), "::1".to_string());
    let token = response.token.unwrap();

    let user = auth.validate_session(token).expect("live session rejected");
    assert_eq!(user.username, "erin");

    assert!(auth.validate_session(token ^ 1).is_none());
}

#[test]
fn expired_sessions_are_swept() {
    let mut auth = AuthState::new();
    auth.register_user("fred".to_string(), "password123".to_string()).unwrap();
    let response = auth.login("fred".to_string(), "password123".to_string(), "::1".to_string());
    let token = response.token.unwrap();
    let expires_at = auth.sessions[0].expires_at;

    // just before expiry the session resolves; at expiry it is gone
    assert!(auth.validate_session_at(token, expires_at - 1).is_some());
    assert!(auth.validate_session_at(token, expires_at).is_none());
    assert_eq!(auth.sessions.len(), 0);
}

#[test]
fn logout_removes_the_session() {
    let mut auth = AuthState::new();
    auth.register_user("gail".to_string(), "password123".to_string()).unwrap();
    let response = auth.login("gail".to_string(), "password123".to_string(), "::1".to_string());
    let token = response.token.unwrap();
    assert_eq!(auth.sessions.len(), 1);
    auth.logout(token);
    assert_eq!(auth.sessions.len(), 0);
    assert!(auth.validate_session(token).is_none());
}

#[test]
fn default_admin_account_exists() {
    let auth = AuthState::new();
    assert_eq!(auth.users.len(), 1);
    assert_eq!(auth.users[0].username, "admin");
    assert_eq!(auth.users[0].role, UserRole::Admin);
}
