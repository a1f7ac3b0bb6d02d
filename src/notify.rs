//! Emails that the engine asks to send: their subject and text.
use crate::types::{Service, User};
use vstd::prelude::*;

verus! {

/// Values for rendering an email template.
#[derive(Clone, Debug)]
pub struct EmailTemplate {
    pub font_family: String,
    pub content_title: String,
    pub content_text: String,
    pub content_url_text: String,
    pub content_url: String,
    pub service_name: String,
    pub service_url: String,
}

pub const FONT_FAMILY: &'static str =
    "-apple-system,BlinkMacSystemFont,'avenir next',avenir,'helvetica neue',helvetica,ubuntu,roboto,noto,'segoe ui',arial,sans-serif;";

impl EmailTemplate {
    pub fn new(
        title: &str,
        text: &str,
        url_text: &str,
        url: &str,
        service_name: &str,
        service_url: &str,
    ) -> (r: EmailTemplate)
        ensures
            r.font_family@ == FONT_FAMILY@,
            r.content_title@ == title@,
            r.content_text@ == text@,
            r.content_url_text@ == url_text@,
            r.content_url@ == url@,
            r.service_name@ == service_name@,
            r.service_url@ == service_url@,
    {
        EmailTemplate {
            font_family: FONT_FAMILY.to_owned(),
            content_title: title.to_owned(),
            content_text: text.to_owned(),
            content_url_text: url_text.to_owned(),
            content_url: url.to_owned(),
            service_name: service_name.to_owned(),
            service_url: service_url.to_owned(),
        }
    }
}

/// A service's own subject and text for an email.
#[derive(Clone, Debug)]
pub struct TemplateBody {
    pub subject: String,
    pub text: String,
}

/// An email ready to send.
#[derive(Clone, Debug)]
pub struct EmailMessage {
    pub to: String,
    pub name: String,
    pub subject: String,
    pub text: String,
}

/// Concatenation of strings.
fn join(parts: &Vec<&str>) -> (r: String)
    ensures
        r@ == joined(parts@.map_values(|p: &str| p@)),
{
    let mut out = String::new();
    let mut i: usize = 0;
    while i < parts.len()
        invariant
            i <= parts@.len(),
            out@ == joined(parts@.map_values(|p: &str| p@).subrange(0, i as int)),
        decreases parts@.len() - i,
    {
        proof {
            let v = parts@.map_values(|p: &str| p@);
            assert(v.subrange(0, i + 1).drop_last() =~= v.subrange(0, i as int));
        }
        out.append(parts[i]);
        i = i + 1;
    }
    proof {
        let v = parts@.map_values(|p: &str| p@);
        assert(v.subrange(0, parts@.len() as int) =~= v);
    }
    out
}

pub open spec fn joined(parts: Seq<Seq<char>>) -> Seq<char>
    decreases parts.len(),
{
    if parts.len() == 0 {
        Seq::empty()
    } else {
        joined(parts.drop_last()) + parts.last()
    }
}

/// The default subject line: the service name and an action.
pub open spec fn default_subject(service: Service, action: Seq<char>) -> Seq<char> {
    service.name@ + ": "@ + action
}

/// The text of an email: the intro, a blank line, then the action link.
pub open spec fn email_text(intro: Seq<char>, link: Seq<char>) -> Seq<char> {
    intro + "\r\n\r\n"@ + link
}

fn subject_and_intro(
    service: &Service,
    template: Option<&TemplateBody>,
    action: &str,
    intro_head: &str,
    intro_tail: &str,
) -> (r: (String, String))
    ensures
        match template {
            Some(t) => r.0@ == t.subject@ && r.1@ == t.text@,
            None => r.0@ == default_subject(*service, action@) && r.1@ == intro_head@
                + service.name@ + intro_tail@,
        },
{
    match template {
        Some(t) => (t.subject.clone(), t.text.clone()),
        None => {
            let subject = join(&vec![service.name.as_str(), ": ", action]);
            let intro = join(&vec![intro_head, service.name.as_str(), intro_tail]);
            proof {
                reveal_with_fuel(joined, 4);
            }
            (subject, intro)
        },
    }
}

/// Composes the reset-password email, sent to the user.
pub fn send_reset_password(
    service: &Service,
    user: &User,
    token: &str,
    template: Option<&TemplateBody>,
) -> (r: EmailMessage)
    ensures
        r.to == user.email,
        r.name == user.name,
        match template {
            Some(t) => r.subject@ == t.subject@,
            None => r.subject@ == default_subject(*service, "Reset Password Request"@),
        },
        r.text@ == email_text(
            match template {
                Some(t) => t.text@,
                None => "A reset password request for your email address has been made to "@
                    + service.name@ + ". If you made this request, follow the link below."@,
            },
            service.url@ + "?email="@ + user.email@ + "&reset_password_token="@ + token@,
        ),
{
    let (subject, intro) = subject_and_intro(
        service,
        template,
        "Reset Password Request",
        "A reset password request for your email address has been made to ",
        ". If you made this request, follow the link below.",
    );
    let text = join(
        &vec![
            intro.as_str(),
            "\r\n\r\n",
            service.url.as_str(),
            "?email=",
            user.email.as_str(),
            "&reset_password_token=",
            token,
        ],
    );
    proof {
        reveal_with_fuel(joined, 8);
    }
    EmailMessage { to: user.email.clone(), name: user.name.clone(), subject, text }
}

/// Composes the update-email notice, sent to the old address.
pub fn send_update_email(
    service: &Service,
    user: &User,
    old_email: &str,
    token: &str,
    template: Option<&TemplateBody>,
) -> (r: EmailMessage)
    ensures
        r.to@ == old_email@,
        r.name == user.name,
        match template {
            Some(t) => r.subject@ == t.subject@,
            None => r.subject@ == default_subject(*service, "Update Email Request"@),
        },
        r.text@ == email_text(
            match template {
                Some(t) => t.text@,
                None => "An update email request for your user has been made to "@ + service.name@
                    + ". If you did not make this request, follow the link below."@,
            },
            service.url@ + "?email="@ + user.email@ + "&old_email="@ + old_email@
                + "&update_email_token="@ + token@,
        ),
{
    let (subject, intro) = subject_and_intro(
        service,
        template,
        "Update Email Request",
        "An update email request for your user has been made to ",
        ". If you did not make this request, follow the link below.",
    );
    let text = join(
        &vec![
            intro.as_str(),
            "\r\n\r\n",
            service.url.as_str(),
            "?email=",
            user.email.as_str(),
            "&old_email=",
            old_email,
            "&update_email_token=",
            token,
        ],
    );
    proof {
        reveal_with_fuel(joined, 10);
    }
    EmailMessage { to: old_email.to_owned(), name: user.name.clone(), subject, text }
}

/// Composes the update-password notice, sent to the user.
pub fn send_update_password(
    service: &Service,
    user: &User,
    token: &str,
    template: Option<&TemplateBody>,
) -> (r: EmailMessage)
    ensures
        r.to == user.email,
        r.name == user.name,
        match template {
            Some(t) => r.subject@ == t.subject@,
            None => r.subject@ == default_subject(*service, "Update Password Request"@),
        },
        r.text@ == email_text(
            match template {
                Some(t) => t.text@,
                None => "An update password request for your user has been made to "@
                    + service.name@ + ". If you did not make this request, follow the link below."@,
            },
            service.url@ + "?email="@ + user.email@ + "&update_password_token="@ + token@,
        ),
{
    let (subject, intro) = subject_and_intro(
        service,
        template,
        "Update Password Request",
        "An update password request for your user has been made to ",
        ". If you did not make this request, follow the link below.",
    );
    let text = join(
        &vec![
            intro.as_str(),
            "\r\n\r\n",
            service.url.as_str(),
            "?email=",
            user.email.as_str(),
            "&update_password_token=",
            token,
        ],
    );
    proof {
        reveal_with_fuel(joined, 8);
    }
    EmailMessage { to: user.email.clone(), name: user.name.clone(), subject, text }
}

} // verus!
