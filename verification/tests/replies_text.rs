use beebot::config::ConfigError;
use beebot::jwt::{IssueError, VerifyError};
use beebot::mail::MailError;
use beebot::replies::{
    about_reply, bad_relay_reply, deleted_reply, failure_reply, issue_error_reply, mail_error_reply,
    mail_sent_reply, no_roles_reply, push_decimal_text, resend_reply, role_reply, verify_error_reply,
    welcome_reply,
};

#[test]
fn numbers_are_written_in_decimal() {
    let mut text = String::from("n=");
    push_decimal_text(&mut text, 0);
    push_decimal_text(&mut text, 1234567890);
    push_decimal_text(&mut text, u64::MAX);
    assert_eq!(text, "n=0123456789018446744073709551615");
}

#[test]
fn answers_to_a_request() {
    assert_eq!(
        no_roles_reply("alice@example.com"),
        "Aucun rôle n'est défini pour l'adresse \"alice@example.com\""
    );
    assert_eq!(
        mail_sent_reply("alice@example.com", 60),
        "Je t'ai envoyé un mail à l'adresse \"alice@example.com\". Il contient une commande `!grant` que tu devras copier/coller ici, en échange de quoi je t'attribuerai les rôles auxquels tu as droit. La commande est valable 60 minutes."
    );
    assert_eq!(failure_reply("connection refused"), "Une erreur est survenue: connection refused");
}

#[test]
fn report_on_a_role() {
    assert_eq!(
        role_reply("Echirolles Triathlon", "Membre", None),
        "Echirolles Triathlon, ajout du rôle \"Membre\": Ok"
    );
    assert_eq!(
        role_reply("Echirolles Triathlon", "?", Some("Missing Permissions")),
        "Echirolles Triathlon, ajout du rôle \"?\": Erreur: Missing Permissions"
    );
}

#[test]
fn refused_token_in_words() {
    assert_eq!(verify_error_reply(VerifyError::Invalid), "Ce token n'est pas valide");
    assert_eq!(
        verify_error_reply(VerifyError::Expired),
        "Ce token a expiré. Tu peux en demander un nouveau avec la commande `!iam`"
    );
    assert_eq!(
        verify_error_reply(VerifyError::WrongPrincipal(42)),
        "Ce token est destiné à un autre utilisateur (<@42>)"
    );
    assert_eq!(
        verify_error_reply(VerifyError::WrongPrincipal(u64::MAX)),
        "Ce token est destiné à un autre utilisateur (<@18446744073709551615>)"
    );
    assert_eq!(
        verify_error_reply(VerifyError::ClockUnavailable),
        "Erreur interne: l'horloge du système est indisponible"
    );
}

#[test]
fn failed_issue_in_words() {
    assert_eq!(
        issue_error_reply(IssueError::ClockUnavailable),
        "Erreur interne: l'horloge du système est indisponible"
    );
    assert_eq!(
        issue_error_reply(IssueError::LifetimeTooLong),
        "Erreur interne: la durée de validité est trop longue"
    );
    assert_eq!(issue_error_reply(IssueError::Signing), "Erreur interne: la signature a échoué");
}

#[test]
fn failed_mail_in_words() {
    assert_eq!(
        mail_error_reply(MailError::InvalidRecipient, "alice", "bot@example.com"),
        "'alice' n'est pas une adresse mail valide"
    );
    assert_eq!(
        mail_error_reply(MailError::InvalidSender, "alice@example.com", "bot"),
        "L'adresse mail bot n'est pas valide"
    );
    assert_eq!(bad_relay_reply("smtp.example.com"), "smtp.example.com n'est pas un serveur SMTP valide");
}

#[test]
fn command_sent_in_public() {
    assert_eq!(
        deleted_reply(42),
        "<@42> j'ai supprimé ton message, cette commande ne peut être envoyée qu'en DM"
    );
    assert_eq!(
        resend_reply(7, "!iam alice@example.com"),
        "Tu as envoyé la commande suivante sur <#7>:\n```\n!iam alice@example.com\n```\nPour des raisons de sécurité et de confidentialité, cette commande ne peut être envoyée qu'en DM (Direct Message). J'ai supprimé ton message sur <#7>, mais tu peux me le renvoyer ici."
    );
}

#[test]
fn version_and_greeting() {
    assert_eq!(about_reply("git-abc"), "beebot version git-abc\n<https://github.com/acut3/beebot>");
    let greeting = welcome_reply();
    assert!(greeting.starts_with("Bienvenue sur le discord d'Echirolles Triathlon !\n"));
    assert!(greeting.contains("```\n!iam vincent.luis@example.com\n```\n"));
    assert!(greeting.ends_with("Cette commande doit m'être envoyée en DM"));
}

#[test]
fn refused_configuration_in_words() {
    assert_eq!(ConfigError::MissingToken.message(), "<token> not defined in config file");
    assert_eq!(ConfigError::KeyTooShort.message(), "<jwt_key> is too short");
    assert_eq!(ConfigError::KeyNotBase64.message(), "<jwt_key> is not valid base64");
    assert_eq!(ConfigError::LifetimeNotInteger.message(), "<jwt_lifetime> should be an integer");
    assert_eq!(ConfigError::MissingSmtp.message(), "<smtp> is not defined");
    assert_eq!(ConfigError::InvalidPort.message(), "<port> is invalid");
    assert_eq!(ConfigError::MissingGuilds.message(), "<guilds> is not defined");
    assert_eq!(ConfigError::MissingEmails.message(), "<emails> is not defined");
    let all = [
        ConfigError::Syntax,
        ConfigError::NoDocument,
        ConfigError::MissingToken,
        ConfigError::LifetimeNotInteger,
        ConfigError::InvalidLifetime,
        ConfigError::MissingKey,
        ConfigError::KeyNotBase64,
        ConfigError::KeyTooShort,
        ConfigError::MissingSmtp,
        ConfigError::MissingHost,
        ConfigError::MissingPort,
        ConfigError::InvalidPort,
        ConfigError::MissingUser,
        ConfigError::MissingPassword,
        ConfigError::MissingGuilds,
        ConfigError::MissingGuildId,
        ConfigError::InvalidGuildId,
        ConfigError::DuplicateGuildId,
        ConfigError::MissingEmails,
        ConfigError::InvalidRoleId,
        ConfigError::GuildsNotList,
        ConfigError::GrantsNotList,
        ConfigError::RolesNotList,
    ];
    for (i, a) in all.iter().enumerate() {
        for b in all.iter().skip(i + 1) {
            assert_ne!(a.message(), b.message());
        }
    }
}
