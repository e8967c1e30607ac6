use mindback::capture::CaptureService;
use mindback::clock::{CivilDate, LocalTime};
use mindback::recognition::{
    check_ready_signal, default_mlx_python_command, default_mlx_python_path,
    exit_failure_message, launch_failure_message, local_model_path, parse_failure_message,
    resident_worker_enabled, worker_error,
    resolve_model_path, RecognitionService,
};
use mindback::storage::{
    default_base_dir, is_valid_thumb_path, join_path, Storage,
};

#[test]
fn worker_python_lives_in_app_data() {
    let path = default_mlx_python_path(Some("/Users/me/Library/Application Support".to_string()));
    assert_eq!(
        path,
        "/Users/me/Library/Application Support/MindBack/venvs/mlx-worker/bin/python"
    );
    assert!(path.contains("MindBack/venvs/mlx-worker"));
    assert!(!path.starts_with("/tmp"));
    assert_eq!(
        default_mlx_python_path(None),
        "./MindBack/venvs/mlx-worker/bin/python"
    );
}

#[test]
fn paths_join_like_path_join() {
    assert_eq!(join_path("/data", "MindBack"), "/data/MindBack");
    assert_eq!(join_path("/data/", "MindBack"), "/data/MindBack");
    assert_eq!(join_path("", "MindBack"), "MindBack");
    assert_eq!(join_path("/data", "/abs"), "/abs");
    assert_eq!(default_base_dir(None), "./MindBack");
    assert_eq!(default_base_dir(Some("/home/u/.local/share".to_string())), "/home/u/.local/share/MindBack");
    let storage = Storage::new("/base".to_string());
    assert_eq!(storage.config_path(), "/base/config.json");
    let date = CivilDate { year: 2026, month: 4, day: 28 };
    assert_eq!(storage.day_dir(date), "/base/days/2026-04-28");
    assert_eq!(storage.day_file(date, "log.jsonl"), "/base/days/2026-04-28/log.jsonl");
    assert_eq!(Storage::default_location(None).base_dir(), "./MindBack");
    assert_eq!(
        local_model_path(Some("/d".to_string()), "org/model"),
        "/d/MindBack/models/org/model"
    );
}

#[test]
fn thumbnail_paths_stay_inside_the_day() {
    assert!(is_valid_thumb_path("thumbs/09-00-00.jpg"));
    assert!(is_valid_thumb_path("thumbs/./a.jpg"));
    assert!(is_valid_thumb_path("thumbs//a.jpg"));
    assert!(is_valid_thumb_path("..a/b"));
    assert!(!is_valid_thumb_path(""));
    assert!(!is_valid_thumb_path("/etc/passwd"));
    assert!(!is_valid_thumb_path("../secret"));
    assert!(!is_valid_thumb_path("thumbs/../../x"));
    assert!(!is_valid_thumb_path("thumbs/.."));
    assert!(!is_valid_thumb_path("./thumbs/a.jpg"));
    assert!(!is_valid_thumb_path("."));
}

#[test]
fn capture_plan_names_the_thumbnail_by_time() {
    let now = LocalTime {
        date: CivilDate { year: 2026, month: 4, day: 28 },
        hour: 14,
        minute: 3,
        second: 9,
        nanosecond: 0,
        offset_seconds: 0,
    };
    let plan = CaptureService::plan("/d/days/2026-04-28", now);
    assert_eq!(plan.thumb_relative_path, "thumbs/14-03-09.jpg");
    assert_eq!(plan.image_path, "/d/days/2026-04-28/thumbs/14-03-09.jpg");
    assert_eq!(CaptureService::thumbnail_dimensions(1280, 720), (1280, 720));
    assert_eq!(CaptureService::thumbnail_dimensions(800, 600), (800, 600));
    assert_eq!(CaptureService::thumbnail_dimensions(2560, 1440), (1280, 720));
    assert_eq!(CaptureService::thumbnail_dimensions(3024, 1964), (1280, 831));
    assert_eq!(CaptureService::thumbnail_dimensions(100_000, 1), (1280, 1));
}

#[test]
fn recognizer_settings_resolve() {
    let mut config = mindback::models::AppConfig::default();
    config.project_name = " ".to_string();
    assert_eq!(RecognitionService::project_label(&config), "今日项目");
    config.project_name = "MindBack".to_string();
    assert_eq!(RecognitionService::project_label(&config), "MindBack");
    assert_eq!(default_mlx_python_command("/v/python".to_string(), true), "/v/python");
    assert_eq!(default_mlx_python_command("/v/python".to_string(), false), "python3");
    assert_eq!(
        resolve_model_path("m", Some("/env".to_string()), true, "/l".to_string(), true),
        "/env"
    );
    assert_eq!(resolve_model_path("m", None, true, "/l".to_string(), true), "m");
    assert_eq!(resolve_model_path("m", None, false, "/l".to_string(), true), "/l");
    assert_eq!(resolve_model_path("m", None, false, "/l".to_string(), false), "m");
    assert!(resident_worker_enabled(None));
    assert!(resident_worker_enabled(Some("1")));
    assert!(!resident_worker_enabled(Some("0")));
}

#[test]
fn worker_ready_signal_must_say_ready() {
    assert_eq!(check_ready_signal("{\"__ready__\": true}\n"), Ok(()));
    assert_eq!(
        check_ready_signal("{\"__ready__\": false}\n"),
        Err("worker did not send ready signal: {\"__ready__\": false}".to_string())
    );
    assert_eq!(
        check_ready_signal("  {\"status\": \"loading\"}  \n"),
        Err("worker did not send ready signal: {\"status\": \"loading\"}".to_string())
    );
    assert_eq!(
        check_ready_signal("{\"__ready__\": \"yes\"}"),
        Err("worker did not send ready signal: {\"__ready__\": \"yes\"}".to_string())
    );
    assert_eq!(
        check_ready_signal("loading model...\n"),
        Err("failed to parse worker ready signal: loading model...\n".to_string())
    );
    assert!(check_ready_signal("").is_err());
}

#[test]
fn failed_recognition_is_marked_off_project_with_its_error() {
    let result = worker_error(launch_failure_message("No such file"));
    assert_eq!(result.intent, "未能完成本地视觉识别");
    assert!(!result.is_on_project);
    assert_eq!(f32::from_bits(result.confidence_bits), 0.0);
    assert_eq!(result.reason, "failed to launch MLX worker: No such file");
    assert_eq!(result.visible_context, "");
    assert_eq!(result.error, Some("failed to launch MLX worker: No such file".to_string()));
    assert_eq!(exit_failure_message("exit status: 1", "boom"), "MLX worker exited with exit status: 1: boom");
    assert_eq!(
        parse_failure_message("EOF", "", "warn"),
        "failed to parse MLX worker output: EOF; stdout: ; stderr: warn"
    );
}

#[test]
fn wide_screenshots_shrink_to_the_thumbnail_width() {
    let small = vec![7u8; 4 * 2 * 3];
    let (same, w, h) = CaptureService::thumbnail_pixels(small.clone(), 4, 2);
    assert_eq!((w, h), (4, 2));
    assert_eq!(same, small);
    let wide = vec![200u8; 2560 * 4 * 3];
    let (thumb, w, h) = CaptureService::thumbnail_pixels(wide, 2560, 4);
    assert_eq!((w, h), (1280, 2));
    assert_eq!(thumb.len(), 1280 * 2 * 3);
    assert!(thumb.iter().all(|&v| v == 200));
}
