//! What the bot says: its answers to the commands and the texts of the
//! errors.

use vstd::prelude::*;
use vstd::string::StringExecFns;
use crate::jwt::{IssueError, VerifyError};
use crate::mail::MailError;

verus! {

/// The character of the decimal digit `d`.
pub open spec fn digit_char(d: nat) -> char
    recommends
        d < 10,
{
    ((48 + d) as u8) as char
}

/// The shortest decimal text of `n`, as characters.
pub open spec fn decimal_text(n: nat) -> Seq<char>
    decreases n,
{
    if n < 10 {
        seq![digit_char(n)]
    } else {
        decimal_text(n / 10).push(digit_char(n % 10))
    }
}

/// The text of one decimal digit.
fn digit_text(d: u64) -> (res: &'static str)
    requires
        d < 10,
    ensures
        res@ == seq![digit_char(d as nat)],
{
    proof {
        reveal_strlit("0");
        reveal_strlit("1");
        reveal_strlit("2");
        reveal_strlit("3");
        reveal_strlit("4");
        reveal_strlit("5");
        reveal_strlit("6");
        reveal_strlit("7");
        reveal_strlit("8");
        reveal_strlit("9");
    }
    let text = if d == 0 {
        "0"
    } else if d == 1 {
        "1"
    } else if d == 2 {
        "2"
    } else if d == 3 {
        "3"
    } else if d == 4 {
        "4"
    } else if d == 5 {
        "5"
    } else if d == 6 {
        "6"
    } else if d == 7 {
        "7"
    } else if d == 8 {
        "8"
    } else {
        "9"
    };
    assert(text@ =~= seq![digit_char(d as nat)]);
    text
}

/// Appends the decimal text of `n` to `out`.
pub fn push_decimal_text(out: &mut String, n: u64)
    ensures
        final(out)@ == old(out)@ + decimal_text(n as nat),
    decreases n,
{
    if n >= 10 {
        push_decimal_text(out, n / 10);
    }
    out.append(digit_text(n % 10));
    assert(out@ =~= old(out)@ + decimal_text(n as nat));
}

/// The answer to a request for an address that is entitled to nothing.
pub open spec fn no_roles_text(email: Seq<char>) -> Seq<char> {
    "Aucun rôle n'est défini pour l'adresse \""@ + email + "\""@
}

/// The answer to a request for an address that is entitled to nothing.
pub fn no_roles_reply(email: &str) -> (res: String)
    ensures
        res@ == no_roles_text(email@),
{
    let mut text = "Aucun rôle n'est défini pour l'adresse \"".to_owned();
    text.append(email);
    text.append("\"");
    text
}

/// The answer to a request whose token was sent by mail.
pub open spec fn mail_sent_text(email: Seq<char>, lifetime: u64) -> Seq<char> {
    "Je t'ai envoyé un mail à l'adresse \""@ + email
        + "\". Il contient une commande `!grant` que tu devras copier/coller ici, en échange de quoi je t'attribuerai les rôles auxquels tu as droit. La commande est valable "@
        + decimal_text(lifetime as nat) + " minutes."@
}

/// The answer to a request whose token was sent by mail; `lifetime` is
/// the lifetime of the token in minutes.
pub fn mail_sent_reply(email: &str, lifetime: u64) -> (res: String)
    ensures
        res@ == mail_sent_text(email@, lifetime),
{
    let mut text = "Je t'ai envoyé un mail à l'adresse \"".to_owned();
    text.append(email);
    text.append(
        "\". Il contient une commande `!grant` que tu devras copier/coller ici, en échange de quoi je t'attribuerai les rôles auxquels tu as droit. La commande est valable ",
    );
    push_decimal_text(&mut text, lifetime);
    text.append(" minutes.");
    text
}

/// The answer to a request that failed with the error `error`.
pub open spec fn failure_text(error: Seq<char>) -> Seq<char> {
    "Une erreur est survenue: "@ + error
}

/// The answer to a request that failed with the error `error`.
pub fn failure_reply(error: &str) -> (res: String)
    ensures
        res@ == failure_text(error@),
{
    let mut text = "Une erreur est survenue: ".to_owned();
    text.append(error);
    text
}

/// The report on one role: the guild, the role, and how giving it ended.
pub open spec fn role_text(guild: Seq<char>, role: Seq<char>, error: Option<Seq<char>>) -> Seq<char> {
    guild + ", ajout du rôle \""@ + role + "\": "@ + match error {
        None => "Ok"@,
        Some(e) => "Erreur: "@ + e,
    }
}

/// The report on one role that was asked for: the name of the guild, the
/// name of the role, and the error if it was not given.
pub fn role_reply(guild: &str, role: &str, error: Option<&str>) -> (res: String)
    ensures
        res@ == role_text(
            guild@,
            role@,
            match error {
                None => None,
                Some(e) => Some(e@),
            },
        ),
{
    let mut text = guild.to_owned();
    text.append(", ajout du rôle \"");
    text.append(role);
    text.append("\": ");
    match error {
        None => {
            text.append("Ok");
        },
        Some(e) => {
            text.append("Erreur: ");
            text.append(e);
        },
    }
    assert(text@ =~= role_text(
        guild@,
        role@,
        match error {
            None => None,
            Some(e) => Some(e@),
        },
    ));
    text
}

/// Why a token was refused, in words. An expired token invites to ask for
/// a new one; a token for another user names that user.
pub open spec fn verify_error_text(error: VerifyError) -> Seq<char> {
    match error {
        VerifyError::Invalid => "Ce token n'est pas valide"@,
        VerifyError::Expired => "Ce token a expiré. Tu peux en demander un nouveau avec la commande `!iam`"@,
        VerifyError::WrongPrincipal(uid) => "Ce token est destiné à un autre utilisateur (<@"@
            + decimal_text(uid as nat) + ">)"@,
        VerifyError::ClockUnavailable => "Erreur interne: l'horloge du système est indisponible"@,
    }
}

/// Why no token was issued, in words.
pub open spec fn issue_error_text(error: IssueError) -> Seq<char> {
    match error {
        IssueError::ClockUnavailable => "Erreur interne: l'horloge du système est indisponible"@,
        IssueError::LifetimeTooLong => "Erreur interne: la durée de validité est trop longue"@,
        IssueError::Signing => "Erreur interne: la signature a échoué"@,
    }
}

/// Why no mail was made, in words; `to` is the recipient and `from` the
/// sender.
pub open spec fn mail_error_text(error: MailError, to: Seq<char>, from: Seq<char>) -> Seq<char> {
    match error {
        MailError::InvalidRecipient => "'"@ + to + "' n'est pas une adresse mail valide"@,
        MailError::InvalidSender => "L'adresse mail "@ + from + " n'est pas valide"@,
    }
}

/// Why a token was refused, in words.
pub fn verify_error_reply(error: VerifyError) -> (res: String)
    ensures
        res@ == verify_error_text(error),
{
    match error {
        VerifyError::Invalid => "Ce token n'est pas valide".to_owned(),
        VerifyError::Expired => "Ce token a expiré. Tu peux en demander un nouveau avec la commande `!iam`".to_owned(),
        VerifyError::WrongPrincipal(uid) => {
            let mut text = "Ce token est destiné à un autre utilisateur (<@".to_owned();
            push_decimal_text(&mut text, uid);
            text.append(">)");
            text
        },
        VerifyError::ClockUnavailable => "Erreur interne: l'horloge du système est indisponible".to_owned(),
    }
}

/// Why no token was issued, in words.
pub fn issue_error_reply(error: IssueError) -> (res: String)
    ensures
        res@ == issue_error_text(error),
{
    match error {
        IssueError::ClockUnavailable => "Erreur interne: l'horloge du système est indisponible".to_owned(),
        IssueError::LifetimeTooLong => "Erreur interne: la durée de validité est trop longue".to_owned(),
        IssueError::Signing => "Erreur interne: la signature a échoué".to_owned(),
    }
}

/// Why no mail was made, in words; `to` is the recipient and `from` the
/// sender.
pub fn mail_error_reply(error: MailError, to: &str, from: &str) -> (res: String)
    ensures
        res@ == mail_error_text(error, to@, from@),
{
    match error {
        MailError::InvalidRecipient => {
            let mut text = "'".to_owned();
            text.append(to);
            text.append("' n'est pas une adresse mail valide");
            text
        },
        MailError::InvalidSender => {
            let mut text = "L'adresse mail ".to_owned();
            text.append(from);
            text.append(" n'est pas valide");
            text
        },
    }
}

/// What is said of a mail relay that cannot be used.
pub open spec fn bad_relay_text(host: Seq<char>) -> Seq<char> {
    host + " n'est pas un serveur SMTP valide"@
}

/// What is said of a mail relay that cannot be used.
pub fn bad_relay_reply(host: &str) -> (res: String)
    ensures
        res@ == bad_relay_text(host@),
{
    let mut text = host.to_owned();
    text.append(" n'est pas un serveur SMTP valide");
    text
}

/// What is said in public to the user `uid` whose command was deleted
/// because it may only be sent in private.
pub open spec fn deleted_text(uid: u64) -> Seq<char> {
    "<@"@ + decimal_text(uid as nat)
        + "> j'ai supprimé ton message, cette commande ne peut être envoyée qu'en DM"@
}

/// What is said in public to the user `uid` whose command was deleted.
pub fn deleted_reply(uid: u64) -> (res: String)
    ensures
        res@ == deleted_text(uid),
{
    let mut text = "<@".to_owned();
    push_decimal_text(&mut text, uid);
    text.append("> j'ai supprimé ton message, cette commande ne peut être envoyée qu'en DM");
    text
}

/// What is said in private to a user whose command `content` was deleted
/// from the channel `channel`.
pub open spec fn resend_text(channel: u64, content: Seq<char>) -> Seq<char> {
    "Tu as envoyé la commande suivante sur <#"@ + decimal_text(channel as nat) + ">:\n```\n"@
        + content
        + "\n```\nPour des raisons de sécurité et de confidentialité, cette commande ne peut être envoyée qu'en DM (Direct Message). J'ai supprimé ton message sur <#"@
        + decimal_text(channel as nat) + ">, mais tu peux me le renvoyer ici."@
}

/// What is said in private to a user whose command `content` was deleted
/// from the channel `channel`.
pub fn resend_reply(channel: u64, content: &str) -> (res: String)
    ensures
        res@ == resend_text(channel, content@),
{
    let mut text = "Tu as envoyé la commande suivante sur <#".to_owned();
    push_decimal_text(&mut text, channel);
    text.append(">:\n```\n");
    text.append(content);
    text.append(
        "\n```\nPour des raisons de sécurité et de confidentialité, cette commande ne peut être envoyée qu'en DM (Direct Message). J'ai supprimé ton message sur <#",
    );
    push_decimal_text(&mut text, channel);
    text.append(">, mais tu peux me le renvoyer ici.");
    text
}

/// The answer to the command that asks for the version.
pub open spec fn about_text(version: Seq<char>) -> Seq<char> {
    "beebot version "@ + version + "\n<https://github.com/acut3/beebot>"@
}

/// The answer to the command that asks for the version.
pub fn about_reply(version: &str) -> (res: String)
    ensures
        res@ == about_text(version@),
{
    let mut text = "beebot version ".to_owned();
    text.append(version);
    text.append("\n<https://github.com/acut3/beebot>");
    text
}

/// The greeting of a new member.
pub open spec fn welcome_text() -> Seq<char> {
    "Bienvenue sur le discord d'Echirolles Triathlon !\nAfin d'obtenir l'accès aux différents salons, tu peux utiliser la command `!iam <email>` avec l'adresse mail que tu as donné au club lors de ton inscription. Par example :\n```\n!iam vincent.luis@example.com\n```\nCette commande doit m'être envoyée en DM"@
}

/// The greeting of a new member.
pub fn welcome_reply() -> (res: String)
    ensures
        res@ == welcome_text(),
{
    "Bienvenue sur le discord d'Echirolles Triathlon !\nAfin d'obtenir l'accès aux différents salons, tu peux utiliser la command `!iam <email>` avec l'adresse mail que tu as donné au club lors de ton inscription. Par example :\n```\n!iam vincent.luis@example.com\n```\nCette commande doit m'être envoyée en DM".to_owned()
}

} // verus!
