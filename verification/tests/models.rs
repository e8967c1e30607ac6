use mindback::clock::CivilDate;
use mindback::models::{
    default_interval_seconds, default_model, default_summary_enabled, default_summary_model,
    default_summary_provider, AppConfig, AppStatus,
};

#[test]
fn default_summary_provider_is_deepseek_for_mvp() {
    let config = AppConfig::default();

    assert_eq!(config.summary_provider, "deepseek");
    assert_eq!(config.summary_model, "deepseek-chat");
}

#[test]
fn defaults_fill_a_fresh_configuration() {
    let config = AppConfig::default();
    assert_eq!(config.project_name, "");
    assert_eq!(config.project_description, "");
    assert_eq!(config.interval_seconds, 60);
    assert_eq!(config.model, "mlx-community/Qwen3-VL-4B-Instruct-4bit");
    assert!(config.summary_enabled);
    assert_eq!(default_interval_seconds(), 60);
    assert_eq!(default_model(), config.model);
    assert_eq!(default_summary_model(), "deepseek-chat");
    assert_eq!(default_summary_provider(), "deepseek");
    assert!(default_summary_enabled());
}

#[test]
fn status_reports_the_configured_project() {
    let config = AppConfig {
        project_name: "MindBack MVP".to_string(),
        ..AppConfig::default()
    };
    let status = AppStatus::from_parts(
        true,
        CivilDate {
            year: 2026,
            month: 4,
            day: 28,
        },
        &config,
        Some("boom".to_string()),
    );
    assert!(status.is_recording);
    assert_eq!(status.today, "2026-04-28");
    assert_eq!(status.project_name, "MindBack MVP");
    assert_eq!(status.last_error, Some("boom".to_string()));
}
