use chrono::{Datelike, Local, NaiveDate, TimeZone};
use mindback::clock::{half_hour_later, CivilDate, LocalTime};
use mindback::models::{
    AppConfig, LogEntry, SummaryAgentResult, SummaryAssessment, SummaryBlockStatus,
    SummaryTimeBlock,
};
use mindback::summary::{
    assessment_label, bucket_start, choose_daily_result, completed_windows, daily_wants_agent, dominant_intent, entries_in_bucket,
    entries_in_window, fallback_block, fallback_daily_result, find_cached_block, format_time,
    has_cached_block, merge_block, on_project_ratio, previous_completed_window, sort_blocks,
    status_label, summarize_window, summary_agent_command, summary_agent_key_missing,
    summary_agent_path, summary_markdown, wants_agent, window_answer,
    fill_completed_windows, previous_half_hour_step,
    SummaryService, MISSING_API_KEY,
};

fn today() -> CivilDate {
    let today = Local::now().date_naive();
    CivilDate {
        year: today.year(),
        month: today.month(),
        day: today.day(),
    }
}

/// The offset that the machine's time zone has in force at a wall-clock reading.
fn zone_offset(date: CivilDate, hour: u32, minute: u32) -> i32 {
    let naive = NaiveDate::from_ymd_opt(date.year, date.month, date.day)
        .unwrap()
        .and_hms_opt(hour, minute, 0)
        .unwrap();
    Local.from_local_datetime(&naive).earliest().unwrap().offset().local_minus_utc()
}

fn at(hour: u32, minute: u32) -> LocalTime {
    LocalTime {
        date: today(),
        hour,
        minute,
        second: 0,
        nanosecond: 0,
        offset_seconds: zone_offset(today(), hour, minute),
    }
}

fn entry_at(hour: u32, minute: u32, intent: &str, on_project: bool) -> LogEntry {
    LogEntry {
        timestamp: at(hour, minute),
        project: "MindBack".to_string(),
        screenshot_thumb: format!("thumbs/{hour:02}-{minute:02}.jpg"),
        model: "model".to_string(),
        intent: intent.to_string(),
        is_on_project: on_project,
        confidence_bits: 0.8f32.to_bits(),
        reason: "visible work summary".to_string(),
        visible_context: "editor".to_string(),
        error: None,
    }
}

/// What the agent gives when no API key is set, as in a test run.
fn agent_without_key() -> Result<Option<SummaryTimeBlock>, String> {
    assert!(summary_agent_key_missing(None, None));
    Err(MISSING_API_KEY.to_string())
}

/// The previous half hour's block as the app computes it from an in-memory day.
fn previous_half_hour(
    cached: &mut Vec<SummaryTimeBlock>,
    entries: &Vec<LogEntry>,
    config: &AppConfig,
    now: LocalTime,
) -> SummaryTimeBlock {
    let (start, end) = previous_completed_window(now);
    let agent = if find_cached_block(cached, start, end).is_none()
        && wants_agent(config, &entries_in_window(entries, start, end))
    {
        agent_without_key()
    } else {
        Ok(None)
    };
    let (block, to_write) = previous_half_hour_step(config, start, end, cached, entries, agent);
    if let Some(blocks) = to_write {
        *cached = blocks;
    }
    block
}

#[test]
fn previous_completed_window_uses_last_closed_half_hour() {
    let now = at(10, 17);
    let (start, end) = previous_completed_window(now);

    assert_eq!(start, at(9, 30));
    assert_eq!(end, at(10, 0));
}

#[test]
fn bucket_start_rounds_down_to_half_hour() {
    assert_eq!(bucket_start(at(9, 44)), at(9, 30));
    assert_eq!(bucket_start(at(10, 0)), at(10, 0));
}

#[test]
fn previous_half_hour_summary_ignores_current_window_entries() {
    let config = AppConfig {
        project_name: "MindBack".to_string(),
        ..AppConfig::default()
    };
    let entries = vec![
        entry_at(9, 40, "Writing summary design", true),
        entry_at(10, 5, "Current window work", false),
    ];
    let mut cached = Vec::new();

    let block = previous_half_hour(&mut cached, &entries, &config, at(10, 17));

    assert_eq!(block.start, "09:30");
    assert_eq!(block.end, "10:00");
    assert_eq!(block.record_count, 1);
    assert_eq!(block.status, SummaryBlockStatus::OnProject);
    assert!(block.summary.contains("Writing summary design"));
}

#[test]
fn previous_half_hour_without_entries_caches_insufficient_data_without_sidecar() {
    let mut cached = Vec::new();

    let block = previous_half_hour(&mut cached, &Vec::new(), &AppConfig::default(), at(10, 17));

    assert_eq!(block.start, "09:30");
    assert_eq!(block.status, SummaryBlockStatus::InsufficientData);
    assert_eq!(block.record_count, 0);

    assert_eq!(cached, vec![block]);
}

#[test]
fn cached_block_is_returned_without_regenerating() {
    let cached_block = SummaryService::fallback_block(
        at(9, 30),
        at(10, 0),
        &vec![entry_at(9, 40, "Cached work", true)],
    );
    let mut cached = merge_block(Vec::new(), &cached_block);

    let block = previous_half_hour(&mut cached, &Vec::new(), &AppConfig::default(), at(10, 17));

    assert_eq!(block.summary, cached_block.summary);
    assert_eq!(block.record_count, 1);
}

#[test]
fn window_after_midnight_reaches_back_a_day() {
    let date = CivilDate {
        year: 2024,
        month: 3,
        day: 1,
    };
    let now = LocalTime {
        date,
        hour: 0,
        minute: 10,
        second: 5,
        nanosecond: 7,
        offset_seconds: zone_offset(date, 0, 10),
    };
    let (start, end) = previous_completed_window(now);
    assert_eq!(
        start.date,
        CivilDate {
            year: 2024,
            month: 2,
            day: 29
        }
    );
    assert_eq!((start.hour, start.minute), (23, 30));
    assert_eq!((end.hour, end.minute, end.second, end.nanosecond), (0, 0, 0, 0));
    assert_eq!(format_time(start), "23:30");
    assert_eq!(half_hour_later(start), end);
    assert_eq!(
        CivilDate {
            year: 2023,
            month: 1,
            day: 1
        }
        .prev(),
        CivilDate {
            year: 2022,
            month: 12,
            day: 31
        }
    );
    assert_eq!(
        CivilDate {
            year: 1900,
            month: 3,
            day: 1
        }
        .prev(),
        CivilDate {
            year: 1900,
            month: 2,
            day: 28
        }
    );
}

#[test]
fn ratio_and_dominant_intent_follow_the_records() {
    let entries = vec![
        entry_at(9, 1, "b", true),
        entry_at(9, 2, "a", false),
        entry_at(9, 3, "a", true),
        entry_at(9, 4, "b", false),
        entry_at(9, 5, "c", false),
    ];
    assert_eq!(on_project_ratio(&entries), 40);
    // "a" and "b" tie; the one that sorts last wins.
    assert_eq!(dominant_intent(&entries), "b");
    assert_eq!(on_project_ratio(&Vec::new()), 0);
    assert_eq!(dominant_intent(&Vec::new()), "暂无判断");
    let three = vec![
        entry_at(9, 1, "x", true),
        entry_at(9, 2, "y", true),
        entry_at(9, 3, "x", false),
    ];
    assert_eq!(on_project_ratio(&three), 66);
    assert_eq!(dominant_intent(&three), "x");
}

#[test]
fn fallback_block_takes_two_pieces_of_evidence() {
    let mut blank = entry_at(9, 1, "a", true);
    blank.visible_context = "  ".to_string();
    blank.reason = "\t".to_string();
    let mut reason_only = entry_at(9, 2, "a", true);
    reason_only.visible_context = " ".to_string();
    reason_only.reason = "because".to_string();
    let entries = vec![
        blank,
        reason_only,
        entry_at(9, 3, "a", true),
        entry_at(9, 4, "b", false),
    ];
    let block = fallback_block(at(9, 0), at(9, 30), &entries, Some("boom".to_string()));
    assert_eq!(block.start, "09:00");
    assert_eq!(block.end, "09:30");
    assert_eq!(block.status, SummaryBlockStatus::OnProject);
    assert_eq!(block.on_project_ratio, 75);
    assert_eq!(block.record_count, 4);
    assert_eq!(block.summary, "a");
    assert_eq!(
        block.evidence,
        vec![
            "because".to_string(),
            "editor".to_string(),
            "Summary Agent 不可用：boom".to_string()
        ]
    );
    assert_eq!(block.error, Some("boom".to_string()));

    let off = fallback_block(at(9, 0), at(9, 30), &vec![entry_at(9, 1, "x", false)], None);
    assert_eq!(off.status, SummaryBlockStatus::OffProject);
    let mixed = fallback_block(
        at(9, 0),
        at(9, 30),
        &vec![entry_at(9, 1, "x", false), entry_at(9, 2, "x", true)],
        None,
    );
    assert_eq!(mixed.status, SummaryBlockStatus::Uncertain);
    let empty = fallback_block(at(9, 0), at(9, 30), &Vec::new(), None);
    assert_eq!(empty.summary, "该时间段没有记录。");
    assert!(empty.evidence.is_empty());
}

#[test]
fn agent_block_keeps_its_words_but_not_its_counts() {
    let config = AppConfig::default();
    let entries = vec![entry_at(9, 40, "x", true), entry_at(9, 41, "y", false)];
    let agent_block = SummaryTimeBlock {
        start: "??".to_string(),
        end: "??".to_string(),
        status: SummaryBlockStatus::Uncertain,
        summary: "Focused on design".to_string(),
        evidence: vec!["docs".to_string()],
        record_count: 99,
        on_project_ratio: 1,
        error: None,
    };
    let block = summarize_window(&config, at(9, 30), at(10, 0), &entries, Ok(Some(agent_block)));
    assert_eq!(block.start, "09:30");
    assert_eq!(block.end, "10:00");
    assert_eq!(block.summary, "Focused on design");
    assert_eq!(block.record_count, 2);
    assert_eq!(block.on_project_ratio, 50);
    assert_eq!(block.status, SummaryBlockStatus::Uncertain);

    let disabled = AppConfig {
        summary_enabled: false,
        ..AppConfig::default()
    };
    let local = summarize_window(&disabled, at(9, 30), at(10, 0), &entries, Err("x".to_string()));
    assert_eq!(local.error, None);
    let failed = summarize_window(&config, at(9, 30), at(10, 0), &entries, Err("down".to_string()));
    assert_eq!(failed.error, Some("down".to_string()));
    let none = summarize_window(&config, at(9, 30), at(10, 0), &entries, Ok(None));
    assert_eq!(none.summary, "y");
}

#[test]
fn agent_answers_become_window_outcomes() {
    let block = SummaryService::fallback_block(at(9, 0), at(9, 30), &Vec::new());
    let answer = SummaryAgentResult {
        overview: "o".to_string(),
        project_alignment: mindback::models::ProjectAlignment {
            on_project_ratio: 0,
            assessment: SummaryAssessment::Focused,
        },
        time_blocks: vec![block.clone()],
        notable_drifts: Vec::new(),
        reflection_prompts: Vec::new(),
        error: None,
    };
    assert_eq!(window_answer(Ok(answer.clone())), Ok(Some(block)));
    let empty = SummaryAgentResult {
        time_blocks: Vec::new(),
        ..answer.clone()
    };
    assert_eq!(window_answer(Ok(empty)), Ok(None));
    let errored = SummaryAgentResult {
        error: Some("quota".to_string()),
        ..answer
    };
    assert_eq!(window_answer(Ok(errored)), Err("quota".to_string()));
    assert_eq!(window_answer(Err("spawn".to_string())), Err("spawn".to_string()));
}

#[test]
fn merging_replaces_the_window_and_sorts() {
    let mk = |start: &str, end: &str, summary: &str| SummaryTimeBlock {
        start: start.to_string(),
        end: end.to_string(),
        status: SummaryBlockStatus::OnProject,
        summary: summary.to_string(),
        evidence: Vec::new(),
        record_count: 0,
        on_project_ratio: 0,
        error: None,
    };
    let cache = vec![mk("10:00", "10:30", "late"), mk("09:00", "09:30", "old"), mk("09:00", "09:15", "odd")];
    let merged = merge_block(cache, &mk("09:00", "09:30", "new"));
    let order: Vec<(&str, &str, &str)> = merged
        .iter()
        .map(|b| (b.start.as_str(), b.end.as_str(), b.summary.as_str()))
        .collect();
    assert_eq!(
        order,
        vec![
            ("09:00", "09:15", "odd"),
            ("09:00", "09:30", "new"),
            ("10:00", "10:30", "late")
        ]
    );
    let found = find_cached_block(&merged, at(9, 0), at(9, 30)).unwrap();
    assert_eq!(found.summary, "new");
    assert!(has_cached_block(&merged, at(10, 0), at(10, 30)));
    assert!(!has_cached_block(&merged, at(11, 0), at(11, 30)));
    let sorted = sort_blocks(vec![mk("b", "1", "x"), mk("a", "2", "y"), mk("b", "1", "z")]);
    let names: Vec<&str> = sorted.iter().map(|b| b.summary.as_str()).collect();
    assert_eq!(names, vec!["y", "x", "z"]);
}

#[test]
fn writing_a_block_twice_changes_nothing() {
    let mk = |start: &str, end: &str, summary: &str| SummaryTimeBlock {
        start: start.to_string(),
        end: end.to_string(),
        status: SummaryBlockStatus::Uncertain,
        summary: summary.to_string(),
        evidence: vec!["e".to_string()],
        record_count: 1,
        on_project_ratio: 50,
        error: None,
    };
    let cache = vec![mk("11:00", "11:30", "c"), mk("09:00", "09:30", "a"), mk("10:00", "10:30", "b")];
    let block = mk("10:00", "10:30", "new");
    let once = merge_block(cache, &block);
    let twice = merge_block(once.clone(), &block);
    assert_eq!(twice, once);
    assert_eq!(sort_blocks(once.clone()), once);
    let summaries: Vec<&str> = once.iter().map(|b| b.summary.as_str()).collect();
    assert_eq!(summaries, vec!["a", "new", "c"]);
}

#[test]
fn window_membership_goes_by_instant() {
    // 01:30 to 02:00 at UTC-5; a record at 01:40 UTC-4 happened at 00:40 UTC-5.
    let zone = |hour: u32, minute: u32, offset_seconds: i32| LocalTime {
        offset_seconds,
        ..at(hour, minute)
    };
    let mut early = entry_at(1, 40, "before the window", false);
    early.timestamp = zone(1, 40, -4 * 3600);
    let mut inside = entry_at(1, 40, "inside", true);
    inside.timestamp = zone(1, 40, -5 * 3600);
    let mut shifted = entry_at(2, 45, "inside too", true);
    shifted.timestamp = zone(2, 45, -4 * 3600);
    let entries = vec![early, inside, shifted];
    let within = entries_in_window(&entries, zone(1, 30, -5 * 3600), zone(2, 0, -5 * 3600));
    let intents: Vec<&str> = within.iter().map(|e| e.intent.as_str()).collect();
    assert_eq!(intents, vec!["inside", "inside too"]);
}

#[test]
fn completed_windows_skip_current_and_cached() {
    let entries = vec![
        entry_at(10, 5, "now", true),
        entry_at(9, 40, "b", true),
        entry_at(8, 10, "a", true),
        entry_at(9, 45, "b2", false),
        entry_at(9, 10, "c", false),
    ];
    let cached = merge_block(
        Vec::new(),
        &SummaryService::fallback_block(at(9, 0), at(9, 30), &Vec::new()),
    );
    let windows = completed_windows(&entries, at(10, 17), &cached);
    assert_eq!(windows, vec![(at(8, 0), at(8, 30)), (at(9, 30), at(10, 0))]);
    let group = entries_in_bucket(&entries, at(9, 30));
    let intents: Vec<&str> = group.iter().map(|e| e.intent.as_str()).collect();
    assert_eq!(intents, vec!["b", "b2"]);
}

#[test]
fn failed_recognitions_leave_a_window_uncertain() {
    let mut failed = entry_at(9, 1, "x", false);
    failed.error = Some("model timeout".to_string());
    let mut failed_again = entry_at(9, 2, "y", false);
    failed_again.error = Some("model timeout".to_string());
    let only_failures = fallback_block(at(9, 0), at(9, 30), &vec![failed.clone(), failed_again], None);
    assert_eq!(only_failures.on_project_ratio, 0);
    assert_eq!(only_failures.status, SummaryBlockStatus::Uncertain);
    // A clearly recognised drift still counts, failures beside it or not.
    let with_clear = fallback_block(
        at(9, 0),
        at(9, 30),
        &vec![failed, entry_at(9, 3, "z", false)],
        None,
    );
    assert_eq!(with_clear.status, SummaryBlockStatus::OffProject);
}

#[test]
fn daily_fallback_judges_the_day() {
    let entries = vec![
        entry_at(9, 1, "a", true),
        entry_at(9, 2, "a", true),
        entry_at(9, 3, "b", false),
    ];
    let off = SummaryTimeBlock {
        status: SummaryBlockStatus::OffProject,
        summary: "Browsing".to_string(),
        ..SummaryService::fallback_block(at(9, 30), at(10, 0), &Vec::new())
    };
    let blocks = vec![SummaryService::fallback_block(at(9, 0), at(9, 30), &entries), off];
    let result = fallback_daily_result(&entries, &blocks);
    assert_eq!(result.overview, "今天共有 3 条记录，66% 符合今日项目。");
    assert_eq!(result.project_alignment.on_project_ratio, 66);
    assert_eq!(result.project_alignment.assessment, SummaryAssessment::Mixed);
    assert_eq!(result.time_blocks, blocks);
    assert_eq!(result.notable_drifts.len(), 1);
    assert_eq!(result.notable_drifts[0].time, "09:30 - 10:00");
    assert_eq!(result.notable_drifts[0].reason, "Browsing");
    assert_eq!(result.reflection_prompts.len(), 2);
    assert_eq!(result.error, None);

    let empty = fallback_daily_result(&Vec::new(), &Vec::new());
    assert_eq!(empty.overview, "今天还没有可用于总结的记录。");
    assert_eq!(empty.project_alignment.assessment, SummaryAssessment::InsufficientData);
    let focused = fallback_daily_result(&vec![entry_at(9, 1, "a", true)], &Vec::new());
    assert_eq!(focused.project_alignment.assessment, SummaryAssessment::Focused);
    let drifted = fallback_daily_result(&vec![entry_at(9, 1, "a", false)], &Vec::new());
    assert_eq!(drifted.project_alignment.assessment, SummaryAssessment::Drifted);

    let config = AppConfig::default();
    let agent = SummaryAgentResult {
        overview: "from agent".to_string(),
        ..empty.clone()
    };
    assert_eq!(
        choose_daily_result(&config, &entries, &blocks, Ok(agent.clone())).overview,
        "from agent"
    );
    let with_error = SummaryAgentResult {
        error: Some("bad".to_string()),
        ..agent.clone()
    };
    let fell_back = choose_daily_result(&config, &entries, &blocks, Ok(with_error));
    assert_eq!(fell_back.overview, result.overview);
    assert_eq!(fell_back.error, Some("bad".to_string()));
    let failed = choose_daily_result(&config, &entries, &blocks, Err("no key".to_string()));
    assert_eq!(failed.overview, result.overview);
    assert_eq!(failed.error, Some("no key".to_string()));
    let disabled = AppConfig {
        summary_enabled: false,
        ..AppConfig::default()
    };
    let off = choose_daily_result(&disabled, &entries, &blocks, Ok(agent.clone()));
    assert_eq!(off.overview, result.overview);
    assert_eq!(off.error, None);
    // A day without records gets the local report, whatever the agent says.
    assert_eq!(
        choose_daily_result(&config, &Vec::new(), &Vec::new(), Ok(agent)).overview,
        "今天还没有可用于总结的记录。"
    );
    assert!(!daily_wants_agent(&config, &Vec::new()));
    assert!(daily_wants_agent(&config, &entries));
    assert!(!daily_wants_agent(&disabled, &entries));
}

#[test]
fn daily_markdown_lists_windows_drifts_and_prompts() {
    let mut first = entry_at(9, 1, "a", true);
    first.project = "  ".to_string();
    let entries = vec![first, entry_at(9, 2, "a", false)];
    let block = SummaryTimeBlock {
        evidence: vec!["e1".to_string(), "e2".to_string(), "e3".to_string()],
        ..SummaryService::fallback_block(at(9, 0), at(9, 30), &entries)
    };
    let mut result = fallback_daily_result(&entries, &vec![block]);
    result.notable_drifts.push(mindback::models::NotableDrift {
        time: "09:00 - 09:30".to_string(),
        reason: "r".to_string(),
    });
    let date = CivilDate {
        year: 2026,
        month: 4,
        day: 28,
    };
    let md = summary_markdown(date, &entries, &result);
    let expected = "# MindBack 今日监督日志\n\n- 日期：2026-04-28\n- 今日项目：MindBack\n- 总记录数：2\n- 符合今日项目：50%\n- 整体判断：混合\n\n## 总览\n\n今天共有 2 条记录，50% 符合今日项目。\n\n## 时间段摘要\n\n- 09:00 - 09:30 | 不确定 | 50% | a\n  - 依据：e1\n  - 依据：e2\n\n## 明显偏离或不确定片段\n\n- 09:00 - 09:30：r\n\n## 复盘问题\n\n- 哪些时间段最容易偏离今日项目？\n- 明天是否需要提前安排一个低干扰的启动任务？\n\n> 由 AI 总结生成，基于本地监督日志；请以原始记录为准。\n";
    assert_eq!(md, expected);
    let empty = summary_markdown(date, &Vec::new(), &fallback_daily_result(&Vec::new(), &Vec::new()));
    assert!(empty.contains("- 今日项目：未设置\n"));
    assert!(empty.contains("- 暂无已完成半小时窗口摘要。\n"));
    assert!(!empty.contains("明显偏离"));
    assert!(empty.contains("- 整体判断：数据不足\n"));
    assert!(!empty.contains("Summary Agent 不可用"));
    result.error = Some("no key".to_string());
    let noted = summary_markdown(date, &entries, &result);
    assert_eq!(noted, format!("{}\n> Summary Agent 不可用：no key\n", expected));
    assert_eq!(assessment_label(&SummaryAssessment::Focused), "专注");
    assert_eq!(assessment_label(&SummaryAssessment::Drifted), "偏离较多");
    assert_eq!(status_label(&SummaryBlockStatus::OnProject), "符合");
    assert_eq!(status_label(&SummaryBlockStatus::OffProject), "偏离");
    assert_eq!(status_label(&SummaryBlockStatus::InsufficientData), "无数据");
}

#[test]
fn agent_settings_have_defaults() {
    assert!(summary_agent_key_missing(Some(""), None));
    assert!(!summary_agent_key_missing(Some("k"), None));
    assert!(!summary_agent_key_missing(None, Some("0")));
    assert!(summary_agent_key_missing(None, Some("1")));
    assert_eq!(summary_agent_command(None), "bun");
    assert_eq!(summary_agent_command(Some("node".to_string())), "node");
    assert_eq!(summary_agent_path(None), "workers/summary_agent.ts");
    assert_eq!(summary_agent_path(Some("x.ts".to_string())), "x.ts");
}

#[test]
fn completed_windows_are_all_cached_after_a_daily_run() {
    let entries = vec![
        entry_at(8, 10, "a", true),
        entry_at(9, 40, "b", true),
        entry_at(9, 45, "b2", false),
        entry_at(10, 5, "now", true),
    ];
    let kept = SummaryService::fallback_block(at(7, 0), at(7, 30), &Vec::new());
    let mut cached = merge_block(Vec::new(), &kept);
    let config = AppConfig {
        summary_enabled: false,
        ..AppConfig::default()
    };
    let now = at(10, 17);
    let windows = completed_windows(&entries, now, &cached);
    let answers = windows.iter().map(|_| Ok(None)).collect();
    cached = fill_completed_windows(&config, cached, &entries, now, &windows, answers);
    assert!(completed_windows(&entries, now, &cached).is_empty());
    assert!(has_cached_block(&cached, at(8, 0), at(8, 30)));
    assert!(has_cached_block(&cached, at(9, 30), at(10, 0)));
    assert!(!has_cached_block(&cached, at(10, 0), at(10, 30)));
    assert_eq!(find_cached_block(&cached, at(7, 0), at(7, 30)), Some(kept));
    assert_eq!(cached.len(), 3);
}

#[test]
fn failed_recognitions_do_not_make_the_day_drift() {
    let failed = |minute: u32| LogEntry {
        error: Some("timeout".to_string()),
        ..entry_at(9, minute, "x", false)
    };
    let all_failed = fallback_daily_result(&vec![failed(1), failed(2)], &Vec::new());
    assert_eq!(all_failed.project_alignment.on_project_ratio, 0);
    assert_eq!(all_failed.project_alignment.assessment, SummaryAssessment::InsufficientData);
    let mostly_failed = fallback_daily_result(
        &vec![failed(1), failed(2), failed(3), entry_at(9, 4, "a", true)],
        &Vec::new(),
    );
    assert_eq!(mostly_failed.project_alignment.on_project_ratio, 25);
    assert_eq!(mostly_failed.project_alignment.assessment, SummaryAssessment::Focused);
}

#[test]
fn previous_half_hour_step_writes_only_a_new_window() {
    let entries = vec![entry_at(9, 40, "b", true), entry_at(10, 5, "now", false)];
    let config = AppConfig {
        summary_enabled: false,
        ..AppConfig::default()
    };
    let (start, end) = previous_completed_window(at(10, 12));
    let (block, to_write) =
        previous_half_hour_step(&config, start, end, &Vec::new(), &entries, Ok(None));
    assert_eq!((block.start.as_str(), block.end.as_str()), ("09:30", "10:00"));
    assert_eq!(block.record_count, 1);
    let written = to_write.expect("a new window is written");
    assert_eq!(written, vec![block.clone()]);
    let (again, nothing) = previous_half_hour_step(&config, start, end, &written, &entries, Ok(None));
    assert_eq!(again, block);
    assert!(nothing.is_none());
}
