use job_mailer::build_email;
use job_mailer::render::join_skills;
use job_mailer::render::u8_decimal;
use job_mailer::Config;
use job_mailer::EmailTemplate;
use job_mailer::Profile;
use job_mailer::SmtpConfig;

fn full_config() -> Config {
    Config {
        profile: Profile {
            name: "João Silva".to_string(),
            email: "joao@example.com".to_string(),
            phone: "+351 912 345 678".to_string(),
            title: "Desenvolvedor Rust".to_string(),
            summary: "Desenvolvedor experiente".to_string(),
            skills: vec!["Rust".to_string(), "Tokio".to_string()],
            experience_years: 5,
            linkedin: Some("linkedin.com/in/joao".to_string()),
            github: Some("github.com/joao".to_string()),
        },
        smtp: SmtpConfig { host: "smtp.example.com".to_string(), port: 587 },
        template: EmailTemplate {
            subject: "Candidatura - {{name}} - {{title}}".to_string(),
            body: "Olá,\nNome: {{name}}\nEmail: {{email}}\nSkills: {{skills}}\nLinkedIn: {{linkedin}}".to_string(),
        },
    }
}

#[test]
fn test_build_email() {
    let config = full_config();
    let (subject, body) = build_email(&config);

    assert_eq!(subject, "Candidatura - João Silva - Desenvolvedor Rust");
    assert!(body.contains("João Silva"));
    assert!(body.contains("joao@example.com"));
    assert!(body.contains("Rust, Tokio"));
    assert!(body.contains("linkedin.com/in/joao"));
}

#[test]
fn test_build_email_with_missing_optionals() {
    let config = Config {
        profile: Profile {
            name: "Ana".to_string(),
            email: "ana@example.com".to_string(),
            phone: "123".to_string(),
            title: "Dev".to_string(),
            summary: "Sum".to_string(),
            skills: vec![],
            experience_years: 3,
            linkedin: None,
            github: None,
        },
        smtp: SmtpConfig { host: "host".to_string(), port: 25 },
        template: EmailTemplate {
            subject: "{{name}} - {{title}}".to_string(),
            body: "{{linkedin}} {{github}} {{experience_years}}".to_string(),
        },
    };

    let (subject, body) = build_email(&config);
    assert_eq!(subject, "Ana - Dev");
    assert_eq!(body, "N/A N/A 3");
}

#[test]
fn rendering_with_all_fields_leaves_no_tokens() {
    let config = full_config();
    let mut config = config;
    config.template.body = "{{name}}|{{email}}|{{phone}}|{{title}}|{{summary}}|{{skills}}|{{experience_years}}|{{linkedin}}|{{github}}".to_string();
    let (_, body) = build_email(&config);
    assert_eq!(
        body,
        "João Silva|joao@example.com|+351 912 345 678|Desenvolvedor Rust|Desenvolvedor experiente|Rust, Tokio|5|linkedin.com/in/joao|github.com/joao"
    );
    assert!(!body.contains("{{"));
}

#[test]
fn subject_substitutes_all_recognized_tokens() {
    let mut config = full_config();
    config.template.subject =
        "{{name}} <{{email}}> {{title}} {{skills}} {{experience_years}}".to_string();
    let (subject, _) = build_email(&config);
    assert_eq!(
        subject,
        "João Silva <joao@example.com> Desenvolvedor Rust Rust, Tokio 5"
    );
    assert!(!subject.contains("{{"));
}

#[test]
fn subject_renders_absent_optionals_as_fallback() {
    let mut config = full_config();
    config.profile.linkedin = None;
    config.profile.github = None;
    config.template.subject = "{{linkedin}} / {{github}}".to_string();
    let (subject, _) = build_email(&config);
    assert_eq!(subject, "N/A / N/A");
}

#[test]
fn rendering_is_idempotent_on_rendered_output() {
    let mut config = full_config();
    config.template.body = "Nome: {{name}}, anos: {{experience_years}}".to_string();
    let (subject, body) = build_email(&config);

    let mut again = full_config();
    again.template.subject = subject.clone();
    again.template.body = body.clone();
    let (subject2, body2) = build_email(&again);
    assert_eq!(subject, subject2);
    assert_eq!(body, body2);
}

#[test]
fn substitution_is_single_pass_left_to_right() {
    let mut config = full_config();
    config.profile.name = "name".to_string();
    config.template.body = "{{{{name}}}}".to_string();
    let (_, body) = build_email(&config);
    // the inner occurrence is substituted; the braces around it join with
    // the inserted text, and the single pass never rescans its own output
    assert_eq!(body, "{{name}}");
}

#[test]
fn unrecognized_tokens_stay_verbatim() {
    let mut config = full_config();
    config.template.body = "{{nome}} {{name}}".to_string();
    let (_, body) = build_email(&config);
    assert_eq!(body, "{{nome}} João Silva");
}

#[test]
fn join_skills_empty_list_is_empty_string() {
    let joined = join_skills(&vec![]);
    assert_eq!(joined, "");
}

#[test]
fn join_skills_uses_comma_and_space() {
    let joined = join_skills(&vec!["Rust".to_string(), "Tokio".to_string(), "SQL".to_string()]);
    assert_eq!(joined, "Rust, Tokio, SQL");
}

#[test]
fn u8_decimal_renders_exact_digits() {
    assert_eq!(u8_decimal(0), "0");
    assert_eq!(u8_decimal(7), "7");
    assert_eq!(u8_decimal(42), "42");
    assert_eq!(u8_decimal(255), "255");
}
