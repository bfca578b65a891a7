//! The mail that carries a token to the address it was asked for.

use vstd::prelude::*;
use vstd::string::StringExecFns;
use crate::config::Config;

verus! {

/// A mailbox as the `lettre` crate holds it.
#[verifier::external_type_specification]
#[verifier::external_body]
pub struct ExMailbox(lettre::message::Mailbox);

/// The error of the address parser of the `lettre` crate.
#[verifier::external_type_specification]
#[verifier::external_body]
pub struct ExAddressError(lettre::address::AddressError);

/// Whether the `lettre` crate reads a text as a mailbox: an address, or a
/// name with an address in angle brackets.
pub uninterp spec fn is_mailbox(text: Seq<char>) -> bool;

/// Why no mail was made.
#[derive(Debug, Clone, Copy, PartialEq, Eq, Structural)]
pub enum MailError {
    /// The address to send to is no mailbox.
    InvalidRecipient,
    /// The address to send from, the account of the mail relay, is no
    /// mailbox.
    InvalidSender,
}

/// A mail, ready to be sent. Recipient and sender are texts that the
/// `lettre` crate reads as mailboxes.
#[derive(Debug)]
pub struct Mail {
    /// The mailbox to send to.
    pub to: String,
    /// The mailbox to send from.
    pub from: String,
    pub subject: String,
    pub body: String,
}

/// The subject of the mail.
pub open spec fn mail_subject() -> Seq<char> {
    "Accès à Discord"@
}

/// The text of the mail that carries the token `jwt`: the command to send
/// back, between two paragraphs.
pub open spec fn mail_body(jwt: Seq<char>) -> Seq<char> {
    "Envoie (copie/colle) la command suivante au bot dans un message privé:\n\n!grant "@ + jwt
        + "\n\nAttention ! Bien qu'il ne contienne aucunes données personnelles ou confidentielles, ce token ne doit pas être partagé. Ne l'envoie pas sur un salon public !"@
}

/// Calls the parser of `lettre::message::Mailbox`, its `FromStr`. The
/// contract gives a name to whether the parser accepts the text.
#[verifier::external_body]
fn parse_mailbox(text: &str) -> (res: Result<
    lettre::message::Mailbox,
    lettre::address::AddressError,
>)
    ensures
        res is Ok == is_mailbox(text@),
{
    text.parse::<lettre::message::Mailbox>()
}

/// Writes the text of the mail that carries the token `jwt`.
pub fn write_mail_body(jwt: &str) -> (res: String)
    ensures
        res@ == mail_body(jwt@),
{
    let mut body =
        "Envoie (copie/colle) la command suivante au bot dans un message privé:\n\n!grant ".to_owned();
    body.append(jwt);
    body.append(
        "\n\nAttention ! Bien qu'il ne contienne aucunes données personnelles ou confidentielles, ce token ne doit pas être partagé. Ne l'envoie pas sur un salon public !",
    );
    body
}

/// Makes the mail that carries the token `jwt` to the address `to`, from
/// the account of the mail relay. The recipient is judged before the sender.
/// The mail goes to the address that was asked for and to no other, and
/// comes from the account.
pub fn prepare_mail(cfg: &Config, to: &str, jwt: &str) -> (res: Result<Mail, MailError>)
    ensures
        !is_mailbox(to@) ==> res matches Err(MailError::InvalidRecipient),
        is_mailbox(to@) && !is_mailbox(cfg.smtp.user@) ==> res matches Err(
            MailError::InvalidSender,
        ),
        is_mailbox(to@) && is_mailbox(cfg.smtp.user@) ==> res is Ok,
        res matches Ok(mail) ==> mail.to@ == to@ && mail.from@ == cfg.smtp.user@,
        res matches Ok(mail) ==> is_mailbox(mail.to@) && is_mailbox(mail.from@),
        res matches Ok(mail) ==> mail.subject@ == mail_subject() && mail.body@ == mail_body(jwt@),
{
    if parse_mailbox(to).is_err() {
        return Err(MailError::InvalidRecipient);
    }
    if parse_mailbox(cfg.smtp.user.as_str()).is_err() {
        return Err(MailError::InvalidSender);
    }
    Ok(
        Mail {
            to: to.to_owned(),
            from: cfg.smtp.user.clone(),
            subject: "Accès à Discord".to_owned(),
            body: write_mail_body(jwt),
        },
    )
}

} // verus!
