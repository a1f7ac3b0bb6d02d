use sso::api::{ServiceCreateRequest, UserCreateRequest};
use sso::notify::{
    send_reset_password, send_update_email, send_update_password, EmailTemplate, TemplateBody,
    FONT_FAMILY,
};
use sso::server::{validate_unsigned, AuthorisationIdentityPolicy, Configuration, Data, Error};
use sso::error::CoreError;
use sso::store::Store;
use sso::types::{Service, User};

fn service() -> Service {
    Service {
        id: 1,
        created_at: 0,
        updated_at: 0,
        is_enabled: true,
        name: String::from("Acme"),
        url: String::from("https://acme.test/cb"),
        provider_local_url: None,
        provider_github_oauth2_url: None,
        provider_microsoft_oauth2_url: None,
    }
}

fn user() -> User {
    User {
        id: 2,
        created_at: 0,
        updated_at: 0,
        is_enabled: true,
        name: String::from("Ann"),
        email: String::from("ann@acme.test"),
        locale: String::from("en"),
        timezone: String::from("UTC"),
        password_allow_reset: true,
        password_require_update: false,
        password_hash: None,
    }
}

#[test]
fn reset_password_email_text() {
    let m = send_reset_password(&service(), &user(), "TOKEN", None);
    assert_eq!(m.to, "ann@acme.test");
    assert_eq!(m.name, "Ann");
    assert_eq!(m.subject, "Acme: Reset Password Request");
    assert_eq!(
        m.text,
        "A reset password request for your email address has been made to Acme. If you made this request, follow the link below.\r\n\r\nhttps://acme.test/cb?email=ann@acme.test&reset_password_token=TOKEN"
    );
}

#[test]
fn update_email_notice_goes_to_old_address() {
    let m = send_update_email(&service(), &user(), "old@acme.test", "T", None);
    assert_eq!(m.to, "old@acme.test");
    assert_eq!(m.subject, "Acme: Update Email Request");
    assert!(m.text.ends_with(
        "\r\n\r\nhttps://acme.test/cb?email=ann@acme.test&old_email=old@acme.test&update_email_token=T"
    ));
}

#[test]
fn update_password_uses_template() {
    let template = TemplateBody { subject: String::from("S"), text: String::from("Body") };
    let m = send_update_password(&service(), &user(), "T", Some(&template));
    assert_eq!(m.subject, "S");
    assert_eq!(m.text, "Body\r\n\r\nhttps://acme.test/cb?email=ann@acme.test&update_password_token=T");
}

#[test]
fn email_template_fields() {
    let t = EmailTemplate::new("title", "text", "go", "https://x", "Acme", "https://acme.test");
    assert_eq!(t.font_family, FONT_FAMILY);
    assert_eq!(t.content_title, "title");
    assert_eq!(t.content_url, "https://x");
    assert_eq!(t.service_url, "https://acme.test");
}

#[test]
fn request_builders() {
    let s = ServiceCreateRequest::new(true, String::from("n"), String::from("u"))
        .provider_local_url(String::from("l"))
        .provider_github_oauth2_url(String::from("g"))
        .provider_microsoft_oauth2_url(String::from("m"));
    assert_eq!(s.provider_local_url.as_deref(), Some("l"));
    assert_eq!(s.provider_github_oauth2_url.as_deref(), Some("g"));
    assert_eq!(s.provider_microsoft_oauth2_url.as_deref(), Some("m"));
    let u = UserCreateRequest::new(
        false,
        String::from("n"),
        String::from("e"),
        String::from("en"),
        String::from("UTC"),
    )
    .with_password(true, false, String::from("p"));
    assert_eq!(u.password_allow_reset, Some(true));
    assert_eq!(u.password_require_update, Some(false));
    assert_eq!(u.password.as_deref(), Some("p"));
}

#[test]
fn configuration_defaults() {
    let c = Configuration::new(String::from("127.0.0.1:9000"));
    assert_eq!(c.bind(), "127.0.0.1:9000");
    assert_eq!(c.user_agent, "sso/0.1.0");
    let d = Data::new(c, Store::new());
    assert_eq!(d.configuration().access_token_expires, 3600);
    assert!(d.driver().users().is_empty());
    assert_eq!(AuthorisationIdentityPolicy::new().header, "Authorization");
    assert!(validate_unsigned(0).is_ok());
    assert!(validate_unsigned(-1).is_err());
    assert_eq!(Error::from_core(CoreError::Forbidden), Error::Core(CoreError::Forbidden));
}
