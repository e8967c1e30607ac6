use vstd::prelude::*;

use crate::clock::{
    half_hour_earlier, half_hour_later, hm_text, later_by_half_hour, spec_bucket_start, CivilDate,
    LocalTime,
};
use crate::models::{
    AppConfig, LogEntry, LogEntryView, NotableDrift, NotableDriftView, ProjectAlignment,
    SummaryAgentResult, SummaryAgentResultView, SummaryAssessment, SummaryBlockStatus,
    SummaryTimeBlock, SummaryTimeBlockView,
};
use crate::storage::Storage;
use crate::text::{
    all_space, chars_eq, chars_of, compare_chars, dec, is_blank, lemma_lt_asymmetric,
    lemma_lt_irreflexive, lemma_lt_total, lemma_lt_transitive, owned, push_dec, push_str, seq_le,
    seq_lt, string_from_chars,
};

verus! {

/// The summary of a window without records.
pub const NO_RECORDS_SUMMARY: &'static str = "该时间段没有记录。";

/// The summary when no intent can be named.
pub const NO_JUDGEMENT: &'static str = "暂无判断";

/// Put before the error text when the summary agent could not be used.
pub const AGENT_UNAVAILABLE_PREFIX: &'static str = "Summary Agent 不可用：";

// ---------------------------------------------------------------------------
// Half-hour windows
// ---------------------------------------------------------------------------

/// The start of the half hour that `timestamp` falls in.
pub fn bucket_start(timestamp: LocalTime) -> (start: LocalTime)
    requires
        timestamp.wf(),
    ensures
        start == spec_bucket_start(timestamp),
        start.wf(),
        start.on_half_hour(),
{
    let minute: u32 = if timestamp.minute < 30 {
        0
    } else {
        30
    };
    LocalTime { minute, second: 0, nanosecond: 0, ..timestamp }
}

/// The last half hour that has ended by `now`: it ends where the current one starts, and
/// starts thirty minutes earlier in the local time zone.
pub fn previous_completed_window(now: LocalTime) -> (window: (LocalTime, LocalTime))
    requires
        now.shiftable(),
    ensures
        window.1 == spec_bucket_start(now),
        later_by_half_hour(window.0, window.1),
        window.0.wf(),
        window.1.wf(),
        window.1.on_half_hour(),
{
    let end = bucket_start(now);
    let start = half_hour_earlier(end);
    (start, end)
}

/// A time of day as `%H:%M` writes it.
pub fn format_time(time: LocalTime) -> (s: String)
    requires
        time.wf(),
    ensures
        s@ == hm_text(time),
{
    time.hm()
}

// ---------------------------------------------------------------------------
// Counting
// ---------------------------------------------------------------------------

/// How many entries served the project.
pub open spec fn count_on_project(s: Seq<LogEntryView>) -> nat
    decreases s.len(),
{
    if s.len() == 0 {
        0
    } else {
        count_on_project(s.drop_last()) + if s.last().is_on_project {
            1nat
        } else {
            0nat
        }
    }
}

/// The share of entries that served the project, in whole percent, rounded down.
pub open spec fn spec_on_project_ratio(s: Seq<LogEntryView>) -> u8 {
    if s.len() == 0 {
        0
    } else {
        ((count_on_project(s) * 100) / s.len()) as u8
    }
}

pub proof fn lemma_count_on_project_bound(s: Seq<LogEntryView>)
    ensures
        count_on_project(s) <= s.len(),
    decreases s.len(),
{
    if s.len() > 0 {
        lemma_count_on_project_bound(s.drop_last());
    }
}

/// The ratio is a percentage.
pub proof fn lemma_ratio_at_most_100(s: Seq<LogEntryView>)
    ensures
        spec_on_project_ratio(s) <= 100,
        s.len() > 0 ==> spec_on_project_ratio(s) == (count_on_project(s) * 100) / s.len(),
{
    lemma_count_on_project_bound(s);
    if s.len() > 0 {
        let c = count_on_project(s);
        let n = s.len();
        assert((c * 100) / n <= 100) by (nonlinear_arith)
            requires
                c <= n,
                n > 0,
        ;
    }
}

/// The share of entries that served the project, in whole percent, rounded down; 0 when there are none.
pub fn on_project_ratio(entries: &Vec<LogEntry>) -> (ratio: u8)
    requires
        entries.len() <= usize::MAX / 100,
    ensures
        ratio == spec_on_project_ratio(entries.deep_view()),
        ratio <= 100,
{
    let ghost s = entries.deep_view();
    proof {
        lemma_ratio_at_most_100(s);
    }
    if entries.len() == 0 {
        return 0;
    }
    let mut on_project: usize = 0;
    let mut i: usize = 0;
    while i < entries.len()
        invariant
            s == entries.deep_view(),
            i <= entries.len(),
            on_project == count_on_project(s.take(i as int)),
            on_project <= i,
        decreases entries.len() - i,
    {
        if entries[i].is_on_project {
            on_project = on_project + 1;
        }
        i = i + 1;
        assert(s.take(i as int).drop_last() == s.take(i - 1));
    }
    assert(s.take(i as int) == s);
    let ratio = (on_project * 100) / entries.len();
    ratio as u8
}

// ---------------------------------------------------------------------------
// The dominant intent
// ---------------------------------------------------------------------------

/// How many entries carry `intent`.
pub open spec fn intent_count(s: Seq<LogEntryView>, intent: Seq<char>) -> nat
    decreases s.len(),
{
    if s.len() == 0 {
        0
    } else {
        intent_count(s.drop_last(), intent) + if s.last().intent == intent {
            1nat
        } else {
            0nat
        }
    }
}

/// `r` is an intent of `s` that no other intent of `s` beats: none is more frequent,
/// and among the most frequent `r` sorts last.
pub open spec fn is_dominant_intent(s: Seq<LogEntryView>, r: Seq<char>) -> bool {
    &&& exists|i: int| 0 <= i < s.len() && s[i].intent == r
    &&& forall|j: int|
        0 <= j < s.len() ==> {
            let c = intent_count(s, #[trigger] s[j].intent);
            c < intent_count(s, r) || (c == intent_count(s, r) && seq_le(s[j].intent, r))
        }
}

/// The most frequent intent (the greatest of them on a tie), or a fixed phrase when there is none.
pub open spec fn spec_dominant_intent(s: Seq<LogEntryView>) -> Seq<char> {
    if s.len() == 0 {
        NO_JUDGEMENT@
    } else {
        choose|r: Seq<char>| is_dominant_intent(s, r)
    }
}

/// At most one intent is dominant.
pub proof fn lemma_dominant_unique(s: Seq<LogEntryView>, a: Seq<char>, b: Seq<char>)
    requires
        is_dominant_intent(s, a),
        is_dominant_intent(s, b),
    ensures
        a == b,
{
    let i = choose|i: int| 0 <= i < s.len() && s[i].intent == a;
    let j = choose|j: int| 0 <= j < s.len() && s[j].intent == b;
    assert(intent_count(s, s[i].intent) == intent_count(s, a));
    assert(intent_count(s, s[j].intent) == intent_count(s, b));
    lemma_lt_asymmetric(a, b);
    lemma_lt_asymmetric(b, a);
}

/// Counts the entries whose intent is `intent`.
fn count_intent(entries: &Vec<LogEntry>, intent: &[char]) -> (n: usize)
    ensures
        n == intent_count(entries.deep_view(), intent@),
        n <= entries.len(),
{
    let ghost s = entries.deep_view();
    let mut n: usize = 0;
    let mut i: usize = 0;
    while i < entries.len()
        invariant
            s == entries.deep_view(),
            i <= entries.len(),
            n == intent_count(s.take(i as int), intent@),
            n <= i,
        decreases entries.len() - i,
    {
        let other = chars_of(entries[i].intent.as_str());
        if chars_eq(other.as_slice(), intent) {
            n = n + 1;
        }
        i = i + 1;
        assert(s.take(i as int).drop_last() == s.take(i - 1));
    }
    assert(s.take(i as int) == s);
    n
}

/// The intent that most entries carry; on a tie, the one that sorts last.
pub fn dominant_intent(entries: &Vec<LogEntry>) -> (intent: String)
    ensures
        intent@ == spec_dominant_intent(entries.deep_view()),
        entries.len() > 0 ==> is_dominant_intent(entries.deep_view(), intent@),
{
    let ghost s = entries.deep_view();
    if entries.len() == 0 {
        return owned(NO_JUDGEMENT);
    }
    let mut best: Vec<char> = chars_of(entries[0].intent.as_str());
    let mut best_count: usize = count_intent(entries, best.as_slice());
    let mut best_at: usize = 0;
    let mut i: usize = 1;
    while i < entries.len()
        invariant
            s == entries.deep_view(),
            1 <= i <= entries.len(),
            best_at < i,
            s[best_at as int].intent == best@,
            best_count == intent_count(s, best@),
            forall|j: int|
                0 <= j < i ==> {
                    let c = intent_count(s, #[trigger] s[j].intent);
                    c < best_count || (c == best_count && seq_le(s[j].intent, best@))
                },
        decreases entries.len() - i,
    {
        let candidate = chars_of(entries[i].intent.as_str());
        let count = count_intent(entries, candidate.as_slice());
        let order = compare_chars(best.as_slice(), candidate.as_slice());
        if count > best_count || (count == best_count && order == -1) {
            proof {
                assert forall|j: int| 0 <= j < i + 1 implies {
                    let c = intent_count(s, #[trigger] s[j].intent);
                    c < count || (c == count && seq_le(s[j].intent, candidate@))
                } by {
                    let c = intent_count(s, s[j].intent);
                    if j < i && c == count {
                        lemma_lt_transitive(s[j].intent, best@, candidate@);
                    }
                }
            }
            best = candidate;
            best_count = count;
            best_at = i;
        } else {
            proof {
                lemma_lt_total(best@, candidate@);
            }
        }
        i = i + 1;
    }
    proof {
        assert(is_dominant_intent(s, best@));
        lemma_dominant_unique(s, best@, choose|r: Seq<char>| is_dominant_intent(s, r));
    }
    string_from_chars(best.as_slice())
}

// ---------------------------------------------------------------------------
// The local fallback for one window
// ---------------------------------------------------------------------------

/// What an entry offers as evidence: its visible context, else its reason, unless blank.
pub open spec fn entry_evidence(e: LogEntryView) -> Option<Seq<char>> {
    if !all_space(e.visible_context) {
        Some(e.visible_context)
    } else if !all_space(e.reason) {
        Some(e.reason)
    } else {
        None
    }
}

/// The evidence of all entries, in order.
pub open spec fn evidence_list(s: Seq<LogEntryView>) -> Seq<Seq<char>>
    decreases s.len(),
{
    if s.len() == 0 {
        Seq::empty()
    } else {
        evidence_list(s.drop_last()) + match entry_evidence(s.last()) {
            Some(x) => seq![x],
            None => Seq::empty(),
        }
    }
}

/// The first two items, or all when there are fewer.
pub open spec fn first_two<A>(s: Seq<A>) -> Seq<A> {
    if s.len() <= 2 {
        s
    } else {
        s.take(2)
    }
}

/// Whether some record of the window was recognised without an error.
pub open spec fn has_clear_record(s: Seq<LogEntryView>) -> bool {
    exists|k: int| 0 <= k < s.len() && (#[trigger] s[k]).error is None
}

/// The status a window earns from its on-project share. A failed recognition is no
/// sign of drift: without a single clear record the window stays uncertain.
pub open spec fn status_for_ratio(ratio: u8, clear: bool) -> SummaryBlockStatus {
    if ratio >= 60 {
        SummaryBlockStatus::OnProject
    } else if ratio == 0 && clear {
        SummaryBlockStatus::OffProject
    } else {
        SummaryBlockStatus::Uncertain
    }
}

/// Whether some record was recognised without an error.
fn any_clear_record(entries: &Vec<LogEntry>) -> (clear: bool)
    ensures
        clear == has_clear_record(entries.deep_view()),
{
    let ghost s = entries.deep_view();
    let mut i: usize = 0;
    while i < entries.len()
        invariant
            s == entries.deep_view(),
            i <= entries.len(),
            forall|k: int| 0 <= k < i ==> (#[trigger] s[k]).error is Some,
        decreases entries.len() - i,
    {
        assert(s[i as int] == entries[i as int]@);
        if entries[i].error.is_none() {
            return true;
        }
        i = i + 1;
    }
    false
}

/// The block that the local rules write for a window.
pub open spec fn spec_fallback_block(
    start: LocalTime,
    end: LocalTime,
    s: Seq<LogEntryView>,
    error: Option<Seq<char>>,
) -> crate::models::SummaryTimeBlockView {
    if s.len() == 0 {
        crate::models::SummaryTimeBlockView {
            start: hm_text(start),
            end: hm_text(end),
            status: SummaryBlockStatus::InsufficientData,
            summary: NO_RECORDS_SUMMARY@,
            evidence: Seq::empty(),
            record_count: 0,
            on_project_ratio: 0,
            error,
        }
    } else {
        crate::models::SummaryTimeBlockView {
            start: hm_text(start),
            end: hm_text(end),
            status: status_for_ratio(spec_on_project_ratio(s), has_clear_record(s)),
            summary: spec_dominant_intent(s),
            evidence: first_two(evidence_list(s)) + match error {
                Some(e) => seq![AGENT_UNAVAILABLE_PREFIX@ + e],
                None => Seq::empty(),
            },
            record_count: s.len() as usize,
            on_project_ratio: spec_on_project_ratio(s),
            error,
        }
    }
}

/// The evidence of the first entries: at most two items.
fn collect_evidence(entries: &Vec<LogEntry>) -> (evidence: Vec<String>)
    ensures
        evidence.deep_view() == first_two(evidence_list(entries.deep_view())),
{
    let ghost s = entries.deep_view();
    let mut evidence: Vec<String> = Vec::new();
    let mut i: usize = 0;
    while i < entries.len()
        invariant
            s == entries.deep_view(),
            i <= entries.len(),
            evidence.deep_view() == first_two(evidence_list(s.take(i as int))),
        decreases entries.len() - i,
    {
        let ghost before = evidence_list(s.take(i as int));
        let entry = &entries[i];
        assert(s.take(i + 1).drop_last() == s.take(i as int));
        assert(s.take(i + 1).last() == entry@);
        let context_blank = is_blank(entry.visible_context.as_str());
        let reason_blank = is_blank(entry.reason.as_str());
        if evidence.len() < 2 {
            if !context_blank {
                evidence.push(entry.visible_context.clone());
            } else if !reason_blank {
                evidence.push(entry.reason.clone());
            }
        }
        i = i + 1;
        proof {
            let after = evidence_list(s.take(i as int));
            if before.len() >= 2 {
                assert(first_two(after) =~= first_two(before));
            } else {
                assert(evidence.deep_view() =~= first_two(after));
            }
        }
    }
    assert(s.take(i as int) == s);
    evidence
}

/// The block that the local rules write for the window from `start` to `end`.
pub fn fallback_block(
    start: LocalTime,
    end: LocalTime,
    entries: &Vec<LogEntry>,
    error: Option<String>,
) -> (block: SummaryTimeBlock)
    requires
        start.wf(),
        end.wf(),
        entries.len() <= usize::MAX / 100,
    ensures
        block@ == spec_fallback_block(start, end, entries.deep_view(), error.deep_view()),
{
    if entries.len() == 0 {
        let evidence: Vec<String> = Vec::new();
        assert(evidence.deep_view() =~= Seq::<Seq<char>>::empty());
        return SummaryTimeBlock {
            start: format_time(start),
            end: format_time(end),
            status: SummaryBlockStatus::InsufficientData,
            summary: owned(NO_RECORDS_SUMMARY),
            evidence,
            record_count: 0,
            on_project_ratio: 0,
            error,
        };
    }
    let ratio = on_project_ratio(entries);
    let clear = any_clear_record(entries);
    let status = if ratio >= 60 {
        SummaryBlockStatus::OnProject
    } else if ratio == 0 && clear {
        SummaryBlockStatus::OffProject
    } else {
        SummaryBlockStatus::Uncertain
    };
    let intent = dominant_intent(entries);
    let mut evidence = collect_evidence(entries);
    let ghost first = evidence.deep_view();
    match &error {
        Some(e) => {
            let mut text: Vec<char> = Vec::new();
            push_str(&mut text, AGENT_UNAVAILABLE_PREFIX);
            push_str(&mut text, e.as_str());
            evidence.push(string_from_chars(text.as_slice()));
            assert(evidence.deep_view() =~= first + seq![AGENT_UNAVAILABLE_PREFIX@ + e@]);
        },
        None => {
            assert(evidence.deep_view() =~= first + Seq::<Seq<char>>::empty());
        },
    }
    SummaryTimeBlock {
        start: format_time(start),
        end: format_time(end),
        status,
        summary: intent,
        evidence,
        record_count: entries.len(),
        on_project_ratio: ratio,
        error,
    }
}

/// The label the day's verdict gets in the daily report.
pub open spec fn spec_assessment_label(a: SummaryAssessment) -> Seq<char> {
    match a {
        SummaryAssessment::Focused => "专注"@,
        SummaryAssessment::Mixed => "混合"@,
        SummaryAssessment::Drifted => "偏离较多"@,
        SummaryAssessment::InsufficientData => "数据不足"@,
    }
}

/// The label the day's verdict gets in the daily report.
pub fn assessment_label(a: &SummaryAssessment) -> (label: &'static str)
    ensures
        label@ == spec_assessment_label(*a),
{
    match a {
        SummaryAssessment::Focused => "专注",
        SummaryAssessment::Mixed => "混合",
        SummaryAssessment::Drifted => "偏离较多",
        SummaryAssessment::InsufficientData => "数据不足",
    }
}

/// The label a status gets in the daily report.
pub open spec fn spec_status_label(status: SummaryBlockStatus) -> Seq<char> {
    match status {
        SummaryBlockStatus::OnProject => "符合"@,
        SummaryBlockStatus::OffProject => "偏离"@,
        SummaryBlockStatus::Uncertain => "不确定"@,
        SummaryBlockStatus::InsufficientData => "无数据"@,
    }
}

/// The label a status gets in the daily report.
pub fn status_label(status: &SummaryBlockStatus) -> (label: &'static str)
    ensures
        label@ == spec_status_label(*status),
{
    match status {
        SummaryBlockStatus::OnProject => "符合",
        SummaryBlockStatus::OffProject => "偏离",
        SummaryBlockStatus::Uncertain => "不确定",
        SummaryBlockStatus::InsufficientData => "无数据",
    }
}


// ---------------------------------------------------------------------------
// The cache of window summaries
// ---------------------------------------------------------------------------

/// A block covers the window written `start`-`end`.
pub open spec fn covers(b: SummaryTimeBlockView, start: Seq<char>, end: Seq<char>) -> bool {
    b.start == start && b.end == end
}

/// The first block that covers the window, if any.
pub open spec fn first_covering(
    s: Seq<SummaryTimeBlockView>,
    start: Seq<char>,
    end: Seq<char>,
) -> Option<SummaryTimeBlockView>
    decreases s.len(),
{
    if s.len() == 0 {
        None
    } else if covers(s[0], start, end) {
        Some(s[0])
    } else {
        first_covering(s.drop_first(), start, end)
    }
}

/// The blocks that do not cover the window, in order.
pub open spec fn without_window(
    s: Seq<SummaryTimeBlockView>,
    start: Seq<char>,
    end: Seq<char>,
) -> Seq<SummaryTimeBlockView>
    decreases s.len(),
{
    if s.len() == 0 {
        s
    } else {
        without_window(s.drop_last(), start, end) + if covers(s.last(), start, end) {
            Seq::empty()
        } else {
            seq![s.last()]
        }
    }
}

/// `a` goes no later than `b`: by start text, then by end text.
pub open spec fn block_key_le(a: SummaryTimeBlockView, b: SummaryTimeBlockView) -> bool {
    seq_lt(a.start, b.start) || (a.start == b.start && seq_le(a.end, b.end))
}

/// `x` put into `s` after the last block that goes no later than it.
pub open spec fn insert_in_order(
    s: Seq<SummaryTimeBlockView>,
    x: SummaryTimeBlockView,
) -> Seq<SummaryTimeBlockView>
    decreases s.len(),
{
    if s.len() == 0 {
        seq![x]
    } else if block_key_le(s.last(), x) {
        s.push(x)
    } else {
        insert_in_order(s.drop_last(), x).push(s.last())
    }
}

/// The blocks in a stable sort by (start, end).
pub open spec fn sorted_blocks(s: Seq<SummaryTimeBlockView>) -> Seq<SummaryTimeBlockView>
    decreases s.len(),
{
    if s.len() == 0 {
        s
    } else {
        insert_in_order(sorted_blocks(s.drop_last()), s.last())
    }
}

/// The cache after `block` is written into it: blocks of other windows kept, `block` added, all sorted.
pub open spec fn spec_merge_block(
    s: Seq<SummaryTimeBlockView>,
    block: SummaryTimeBlockView,
) -> Seq<SummaryTimeBlockView> {
    sorted_blocks(without_window(s, block.start, block.end).push(block))
}

proof fn lemma_insert_at(s: Seq<SummaryTimeBlockView>, x: SummaryTimeBlockView, j: int)
    requires
        0 <= j <= s.len(),
        forall|k: int| j <= k < s.len() ==> !block_key_le(#[trigger] s[k], x),
        j == 0 || block_key_le(s[j - 1], x),
    ensures
        insert_in_order(s, x) == s.insert(j, x),
    decreases s.len(),
{
    if s.len() == 0 {
        assert(s.insert(j, x) =~= seq![x]);
    } else if j == s.len() {
        assert(s.insert(j, x) =~= s.push(x));
    } else {
        lemma_insert_at(s.drop_last(), x, j);
        assert(s.insert(j, x) =~= s.drop_last().insert(j, x).push(s.last()));
    }
}

/// Whether `a` goes no later than `b`.
fn block_le(a: &SummaryTimeBlock, b: &SummaryTimeBlock) -> (r: bool)
    ensures
        r == block_key_le(a@, b@),
{
    let a_start = chars_of(a.start.as_str());
    let b_start = chars_of(b.start.as_str());
    let by_start = compare_chars(a_start.as_slice(), b_start.as_slice());
    if by_start == -1 {
        return true;
    }
    if by_start == 1 {
        proof {
            lemma_lt_asymmetric(b@.start, a@.start);
            lemma_lt_irreflexive(a@.start);
        }
        return false;
    }
    let a_end = chars_of(a.end.as_str());
    let b_end = chars_of(b.end.as_str());
    let by_end = compare_chars(a_end.as_slice(), b_end.as_slice());
    proof {
        lemma_lt_irreflexive(a@.start);
        lemma_lt_asymmetric(b@.end, a@.end);
        lemma_lt_irreflexive(a@.end);
    }
    by_end != 1
}

/// Sorts blocks by start, then end, keeping the order of blocks of the same window.
pub fn sort_blocks(blocks: Vec<SummaryTimeBlock>) -> (sorted: Vec<SummaryTimeBlock>)
    ensures
        sorted.deep_view() == sorted_blocks(blocks.deep_view()),
{
    let ghost s = blocks.deep_view();
    let mut sorted: Vec<SummaryTimeBlock> = Vec::new();
    let mut rest = blocks;
    let mut taken: usize = 0;
    let total = rest.len();
    // Take blocks from the front, one by one, inserting each into the sorted prefix.
    let mut reversed: Vec<SummaryTimeBlock> = Vec::new();
    while rest.len() > 0
        invariant
            total == s.len(),
            reversed.len() + rest.len() == total,
            forall|k: int| 0 <= k < rest.len() ==> #[trigger] rest@[k]@ == s[k],
            forall|k: int|
                0 <= k < reversed.len() ==> #[trigger] reversed@[k]@ == s[total - 1 - k],
        decreases rest.len(),
    {
        let b = rest.pop().unwrap();
        reversed.push(b);
    }
    assert(sorted.deep_view() =~= sorted_blocks(s.take(0)));
    while reversed.len() > 0
        invariant
            total == s.len(),
            taken + reversed.len() == total,
            forall|k: int|
                0 <= k < reversed.len() ==> #[trigger] reversed@[k]@ == s[total - 1 - k],
            sorted.deep_view() == sorted_blocks(s.take(taken as int)),
        decreases reversed.len(),
    {
        let b = reversed.pop().unwrap();
        assert(b@ == s[taken as int]);
        let ghost before = sorted.deep_view();
        let mut j = sorted.len();
        while j > 0 && !block_le(&sorted[j - 1], &b)
            invariant
                j <= sorted.len(),
                sorted.deep_view() == before,
                forall|k: int| j <= k < sorted.len() ==> !block_key_le(#[trigger] before[k], b@),
            decreases j,
        {
            j = j - 1;
        }
        proof {
            if j > 0 {
                assert(block_key_le(before[j - 1], b@));
            }
            lemma_insert_at(before, b@, j as int);
            assert(s.take(taken + 1).drop_last() =~= s.take(taken as int));
        }
        sorted.insert(j, b);
        assert(sorted.deep_view() =~= before.insert(j as int, b@));
        taken = taken + 1;
    }
    assert(s.take(total as int) =~= s);
    sorted
}

/// Whether two blocks cover the same window.
fn same_window(a: &SummaryTimeBlock, b: &SummaryTimeBlock) -> (r: bool)
    ensures
        r == covers(a@, b@.start, b@.end),
{
    let a_start = chars_of(a.start.as_str());
    let b_start = chars_of(b.start.as_str());
    let a_end = chars_of(a.end.as_str());
    let b_end = chars_of(b.end.as_str());
    chars_eq(a_start.as_slice(), b_start.as_slice()) && chars_eq(a_end.as_slice(), b_end.as_slice())
}

/// The cache after `block` is written into it: any block of the same window replaced, sorted by window.
pub fn merge_block(blocks: Vec<SummaryTimeBlock>, block: &SummaryTimeBlock) -> (merged: Vec<
    SummaryTimeBlock,
>)
    ensures
        merged.deep_view() == spec_merge_block(blocks.deep_view(), block@),
{
    let ghost s = blocks.deep_view();
    let mut kept: Vec<SummaryTimeBlock> = Vec::new();
    let mut i: usize = 0;
    while i < blocks.len()
        invariant
            s == blocks.deep_view(),
            i <= blocks.len(),
            kept.deep_view() == without_window(s.take(i as int), block@.start, block@.end),
        decreases blocks.len() - i,
    {
        let ghost before = kept.deep_view();
        if !same_window(&blocks[i], block) {
            kept.push(blocks[i].duplicate());
        }
        i = i + 1;
        assert(s.take(i as int).drop_last() =~= s.take(i - 1));
        assert(kept.deep_view() =~= without_window(s.take(i as int), block@.start, block@.end));
    }
    assert(s.take(i as int) =~= s);
    let ghost before = kept.deep_view();
    kept.push(block.duplicate());
    assert(kept.deep_view() =~= before.push(block@));
    sort_blocks(kept)
}

/// The first cached block of the window from `start` to `end`, if any.
pub fn find_cached_block(cached: &Vec<SummaryTimeBlock>, start: LocalTime, end: LocalTime) -> (found:
    Option<SummaryTimeBlock>)
    requires
        start.wf(),
        end.wf(),
    ensures
        match found {
            Some(b) => first_covering(cached.deep_view(), hm_text(start), hm_text(end)) == Some(
                b@,
            ),
            None => first_covering(cached.deep_view(), hm_text(start), hm_text(end)) is None,
        },
{
    let ghost s = cached.deep_view();
    let start_text = chars_of(format_time(start).as_str());
    let end_text = chars_of(format_time(end).as_str());
    let mut i: usize = 0;
    assert(s.skip(0) =~= s);
    while i < cached.len()
        invariant
            s == cached.deep_view(),
            i <= cached.len(),
            start_text@ == hm_text(start),
            end_text@ == hm_text(end),
            first_covering(s, hm_text(start), hm_text(end)) == first_covering(
                s.skip(i as int),
                hm_text(start),
                hm_text(end),
            ),
        decreases cached.len() - i,
    {
        let b_start = chars_of(cached[i].start.as_str());
        let b_end = chars_of(cached[i].end.as_str());
        assert(s.skip(i as int)[0] == cached[i as int]@);
        if chars_eq(b_start.as_slice(), start_text.as_slice()) && chars_eq(
            b_end.as_slice(),
            end_text.as_slice(),
        ) {
            return Some(cached[i].duplicate());
        }
        assert(s.skip(i as int).drop_first() =~= s.skip(i + 1));
        i = i + 1;
    }
    None
}

/// Whether some cached block covers the window from `start` to `end`.
pub fn has_cached_block(cached: &Vec<SummaryTimeBlock>, start: LocalTime, end: LocalTime) -> (found:
    bool)
    requires
        start.wf(),
        end.wf(),
    ensures
        found == (first_covering(cached.deep_view(), hm_text(start), hm_text(end)) is Some),
{
    find_cached_block(cached, start, end).is_some()
}

// ---------------------------------------------------------------------------
// Entries of a window
// ---------------------------------------------------------------------------

/// The reading lies in the window: not earlier than `start`, and earlier than `end`, as
/// instants (readings under different offsets compare by the time they stand for).
pub open spec fn in_window(t: LocalTime, start: LocalTime, end: LocalTime) -> bool {
    !t.spec_earlier(start) && t.spec_earlier(end)
}

/// The entries that lie in the window, in order.
pub open spec fn entries_within(
    s: Seq<LogEntryView>,
    start: LocalTime,
    end: LocalTime,
) -> Seq<LogEntryView>
    decreases s.len(),
{
    if s.len() == 0 {
        s
    } else {
        entries_within(s.drop_last(), start, end) + if in_window(s.last().timestamp, start, end) {
            seq![s.last()]
        } else {
            Seq::empty()
        }
    }
}

/// The entries recorded in the window from `start` (included) to `end` (excluded).
pub fn entries_in_window(entries: &Vec<LogEntry>, start: LocalTime, end: LocalTime) -> (within: Vec<
    LogEntry,
>)
    ensures
        within.deep_view() == entries_within(entries.deep_view(), start, end),
        within.len() <= entries.len(),
{
    let ghost s = entries.deep_view();
    let mut within: Vec<LogEntry> = Vec::new();
    let mut i: usize = 0;
    while i < entries.len()
        invariant
            s == entries.deep_view(),
            i <= entries.len(),
            within.len() <= i,
            within.deep_view() == entries_within(s.take(i as int), start, end),
        decreases entries.len() - i,
    {
        let ghost before = within.deep_view();
        let t = entries[i].timestamp;
        if !t.earlier(&start) && t.earlier(&end) {
            within.push(entries[i].duplicate());
        }
        i = i + 1;
        assert(s.take(i as int).drop_last() =~= s.take(i - 1));
        assert(within.deep_view() =~= entries_within(s.take(i as int), start, end));
    }
    assert(s.take(i as int) =~= s);
    within
}


// ---------------------------------------------------------------------------
// Laws of the cache
// ---------------------------------------------------------------------------

proof fn lemma_insert_in_order_multiset(s: Seq<SummaryTimeBlockView>, x: SummaryTimeBlockView)
    ensures
        insert_in_order(s, x).to_multiset() == s.to_multiset().insert(x),
    decreases s.len(),
{
    broadcast use vstd::seq_lib::group_seq_properties;

    if s.len() == 0 {
        assert(seq![x] =~= s.push(x));
    } else if block_key_le(s.last(), x) {
    } else {
        lemma_insert_in_order_multiset(s.drop_last(), x);
        assert(s.drop_last().push(s.last()) =~= s);
        assert(insert_in_order(s.drop_last(), x).push(s.last()).to_multiset() =~= s.drop_last().to_multiset().insert(x).insert(s.last()));
        assert(s.to_multiset() =~= s.drop_last().to_multiset().insert(s.last()));
    }
}

/// Sorting keeps every block, as often as it occurs.
pub proof fn lemma_sorted_blocks_permutes(s: Seq<SummaryTimeBlockView>)
    ensures
        sorted_blocks(s).to_multiset() == s.to_multiset(),
    decreases s.len(),
{
    broadcast use vstd::seq_lib::group_seq_properties;

    if s.len() > 0 {
        lemma_sorted_blocks_permutes(s.drop_last());
        lemma_insert_in_order_multiset(sorted_blocks(s.drop_last()), s.last());
        assert(s.drop_last().push(s.last()) =~= s);
    }
}

proof fn lemma_without_window_count(
    s: Seq<SummaryTimeBlockView>,
    start: Seq<char>,
    end: Seq<char>,
    x: SummaryTimeBlockView,
)
    ensures
        without_window(s, start, end).to_multiset().count(x) == if covers(x, start, end) {
            0
        } else {
            s.to_multiset().count(x)
        },
    decreases s.len(),
{
    broadcast use vstd::seq_lib::group_seq_properties;

    if s.len() == 0 {
        assert(s.to_multiset() =~= vstd::multiset::Multiset::empty());
    } else {
        lemma_without_window_count(s.drop_last(), start, end, x);
        assert(s.drop_last().push(s.last()) =~= s);
        let w = without_window(s.drop_last(), start, end);
        if covers(s.last(), start, end) {
            assert(w + Seq::<SummaryTimeBlockView>::empty() =~= w);
        } else {
            assert(w + seq![s.last()] =~= w.push(s.last()));
        }
    }
}

proof fn lemma_first_covering_single(
    t: Seq<SummaryTimeBlockView>,
    start: Seq<char>,
    end: Seq<char>,
    b: SummaryTimeBlockView,
)
    requires
        t.contains(b),
        covers(b, start, end),
        forall|k: int| 0 <= k < t.len() && covers(#[trigger] t[k], start, end) ==> t[k] == b,
    ensures
        first_covering(t, start, end) == Some(b),
    decreases t.len(),
{
    if !covers(t[0], start, end) {
        let k = choose|k: int| 0 <= k < t.len() && t[k] == b;
        assert(k > 0);
        assert(t.drop_first()[k - 1] == b);
        assert forall|m: int|
            0 <= m < t.drop_first().len() && covers(#[trigger] t.drop_first()[m], start, end)
                implies t.drop_first()[m] == b by {
            assert(t.drop_first()[m] == t[m + 1]);
        }
        lemma_first_covering_single(t.drop_first(), start, end, b);
    }
}

/// Reading a window back after writing its block gives that block: the cache never
/// holds a second block for the window, so the one just written is the one found.
pub proof fn lemma_written_block_is_found(s: Seq<SummaryTimeBlockView>, b: SummaryTimeBlockView)
    ensures
        first_covering(spec_merge_block(s, b), b.start, b.end) == Some(b),
{
    broadcast use vstd::seq_lib::group_seq_properties;

    let w = without_window(s, b.start, b.end);
    let t = spec_merge_block(s, b);
    lemma_sorted_blocks_permutes(w.push(b));
    assert(t.to_multiset() == w.to_multiset().insert(b));
    assert(t.to_multiset().count(b) > 0);
    assert forall|k: int| 0 <= k < t.len() && covers(#[trigger] t[k], b.start, b.end) implies t[k]
        == b by {
        let x = t[k];
        assert(t.contains(x));
        assert(t.to_multiset().count(x) > 0);
        lemma_without_window_count(s, b.start, b.end, x);
        if x != b {
            assert(w.to_multiset().insert(b).count(x) == w.to_multiset().count(x));
        }
    }
    lemma_first_covering_single(t, b.start, b.end, b);
}

/// Writing a block keeps every cached block of another window, as often as it occurred,
/// and adds the written block once.
pub proof fn lemma_merge_keeps_other_windows(
    s: Seq<SummaryTimeBlockView>,
    b: SummaryTimeBlockView,
    x: SummaryTimeBlockView,
)
    ensures
        !covers(x, b.start, b.end) ==> spec_merge_block(s, b).to_multiset().count(x)
            == s.to_multiset().count(x),
        spec_merge_block(s, b).to_multiset().count(b) == 1,
        spec_merge_block(s, b).len() == without_window(s, b.start, b.end).len() + 1,
{
    broadcast use vstd::seq_lib::group_seq_properties;

    let w = without_window(s, b.start, b.end);
    lemma_sorted_blocks_permutes(w.push(b));
    lemma_without_window_count(s, b.start, b.end, x);
    lemma_without_window_count(s, b.start, b.end, b);
    let t = spec_merge_block(s, b);
    t.to_multiset_ensures();
    w.push(b).to_multiset_ensures();
    assert(t.len() == t.to_multiset().len());
    assert(w.push(b).len() == w.push(b).to_multiset().len());
    if x != b {
        assert(w.to_multiset().insert(b).count(x) == w.to_multiset().count(x));
    }
}


/// Blocks ordered by window.
pub open spec fn blocks_in_order(s: Seq<SummaryTimeBlockView>) -> bool {
    forall|i: int, j: int| 0 <= i < j < s.len() ==> block_key_le(#[trigger] s[i], #[trigger] s[j])
}

proof fn lemma_block_key_total(a: SummaryTimeBlockView, b: SummaryTimeBlockView)
    ensures
        block_key_le(a, b) || block_key_le(b, a),
{
    lemma_lt_total(a.start, b.start);
    lemma_lt_total(a.end, b.end);
}

proof fn lemma_block_key_transitive(
    a: SummaryTimeBlockView,
    b: SummaryTimeBlockView,
    c: SummaryTimeBlockView,
)
    requires
        block_key_le(a, b),
        block_key_le(b, c),
    ensures
        block_key_le(a, c),
{
    lemma_lt_transitive(a.start, b.start, c.start);
    lemma_lt_transitive(a.end, b.end, c.end);
}

proof fn lemma_insert_in_order_sorted(s: Seq<SummaryTimeBlockView>, x: SummaryTimeBlockView)
    requires
        blocks_in_order(s),
    ensures
        blocks_in_order(insert_in_order(s, x)),
    decreases s.len(),
{
    broadcast use vstd::seq_lib::group_seq_properties;

    if s.len() == 0 {
    } else if block_key_le(s.last(), x) {
        let t = s.push(x);
        assert forall|i: int, j: int| 0 <= i < j < t.len() implies block_key_le(
            #[trigger] t[i],
            #[trigger] t[j],
        ) by {
            if j == s.len() && i < s.len() - 1 {
                lemma_block_key_transitive(s[i], s.last(), x);
            }
        }
    } else {
        let d = s.drop_last();
        let last = s.last();
        lemma_block_key_total(last, x);
        assert(blocks_in_order(d));
        lemma_insert_in_order_sorted(d, x);
        lemma_insert_in_order_multiset(d, x);
        let r = insert_in_order(d, x);
        let t = r.push(last);
        assert forall|i: int, j: int| 0 <= i < j < t.len() implies block_key_le(
            #[trigger] t[i],
            #[trigger] t[j],
        ) by {
            if j == r.len() {
                let y = r[i];
                assert(r.contains(y));
                assert(r.to_multiset().count(y) > 0);
                if y != x {
                    assert(d.to_multiset().insert(x).count(y) == d.to_multiset().count(y));
                    assert(d.contains(y));
                    let k = choose|k: int| 0 <= k < d.len() && d[k] == y;
                    assert(s[k] == y);
                }
            }
        }
    }
}

/// Sorting leaves the blocks ordered by window.
pub proof fn lemma_sorted_blocks_in_order(s: Seq<SummaryTimeBlockView>)
    ensures
        blocks_in_order(sorted_blocks(s)),
    decreases s.len(),
{
    if s.len() > 0 {
        lemma_sorted_blocks_in_order(s.drop_last());
        lemma_insert_in_order_sorted(sorted_blocks(s.drop_last()), s.last());
    }
}


/// Sorting blocks that are already ordered by window changes nothing: a cache read back
/// and sorted again is the same list.
pub proof fn lemma_sorted_blocks_of_ordered(s: Seq<SummaryTimeBlockView>)
    requires
        blocks_in_order(s),
    ensures
        sorted_blocks(s) == s,
    decreases s.len(),
{
    if s.len() > 0 {
        let d = s.drop_last();
        assert(blocks_in_order(d));
        lemma_sorted_blocks_of_ordered(d);
        if d.len() > 0 {
            assert(block_key_le(s[d.len() - 1], s[s.len() - 1]));
        }
        assert(d.push(s.last()) =~= s);
    }
}

/// Sorting twice is sorting once.
pub proof fn lemma_sorted_blocks_idempotent(s: Seq<SummaryTimeBlockView>)
    ensures
        sorted_blocks(sorted_blocks(s)) == sorted_blocks(s),
{
    lemma_sorted_blocks_in_order(s);
    lemma_sorted_blocks_of_ordered(sorted_blocks(s));
}

proof fn lemma_without_none_covering(s: Seq<SummaryTimeBlockView>, start: Seq<char>, end: Seq<char>)
    requires
        forall|k: int| 0 <= k < s.len() ==> !covers(#[trigger] s[k], start, end),
    ensures
        without_window(s, start, end) == s,
    decreases s.len(),
{
    if s.len() > 0 {
        lemma_without_none_covering(s.drop_last(), start, end);
        assert(!covers(s[s.len() - 1], start, end));
        assert(s.drop_last() + seq![s.last()] =~= s);
    }
}

proof fn lemma_without_after_insert(u: Seq<SummaryTimeBlockView>, b: SummaryTimeBlockView)
    requires
        forall|k: int| 0 <= k < u.len() ==> !covers(#[trigger] u[k], b.start, b.end),
    ensures
        without_window(insert_in_order(u, b), b.start, b.end) == u,
    decreases u.len(),
{
    if u.len() == 0 {
        let e = Seq::<SummaryTimeBlockView>::empty();
        assert(seq![b].drop_last() =~= e);
        assert(seq![b].last() == b);
        assert(without_window(e, b.start, b.end) == e);
        assert(without_window(seq![b], b.start, b.end) =~= e + e);
        assert(u =~= e);
    } else if block_key_le(u.last(), b) {
        lemma_without_none_covering(u, b.start, b.end);
        assert(u.push(b).drop_last() =~= u);
        assert(without_window(u.push(b), b.start, b.end) =~= u);
    } else {
        let d = u.drop_last();
        lemma_without_after_insert(d, b);
        let r = insert_in_order(d, b);
        assert(r.push(u.last()).drop_last() =~= r);
        assert(!covers(u[u.len() - 1], b.start, b.end));
        assert(d + seq![u.last()] =~= u);
    }
}

proof fn lemma_merge_none_covering(s: Seq<SummaryTimeBlockView>, b: SummaryTimeBlockView)
    ensures
        forall|k: int|
            0 <= k < sorted_blocks(without_window(s, b.start, b.end)).len() ==> !covers(
                #[trigger] sorted_blocks(without_window(s, b.start, b.end))[k],
                b.start,
                b.end,
            ),
{
    broadcast use vstd::seq_lib::group_seq_properties;

    let w = without_window(s, b.start, b.end);
    let u = sorted_blocks(w);
    lemma_sorted_blocks_permutes(w);
    assert forall|k: int| 0 <= k < u.len() implies !covers(#[trigger] u[k], b.start, b.end) by {
        let x = u[k];
        assert(u.contains(x));
        assert(u.to_multiset().count(x) > 0);
        lemma_without_window_count(s, b.start, b.end, x);
    }
}

/// Writing the same block twice leaves the cache as the first write left it.
pub proof fn lemma_merge_idempotent(s: Seq<SummaryTimeBlockView>, b: SummaryTimeBlockView)
    ensures
        spec_merge_block(spec_merge_block(s, b), b) == spec_merge_block(s, b),
{
    let w = without_window(s, b.start, b.end);
    let u = sorted_blocks(w);
    let t = spec_merge_block(s, b);
    assert(w.push(b).drop_last() =~= w);
    assert(t == insert_in_order(u, b));
    lemma_merge_none_covering(s, b);
    lemma_without_after_insert(u, b);
    assert(without_window(t, b.start, b.end) == u);
    assert(u.push(b).drop_last() =~= u);
    lemma_sorted_blocks_in_order(w);
    lemma_sorted_blocks_of_ordered(u);
    assert(spec_merge_block(t, b) == insert_in_order(sorted_blocks(u), b));
}

/// Some block of `s` covers the window.
pub open spec fn holds_window(s: Seq<SummaryTimeBlockView>, start: Seq<char>, end: Seq<char>) -> bool {
    exists|j: int| 0 <= j < s.len() && covers(#[trigger] s[j], start, end)
}

proof fn lemma_holds_window_found(s: Seq<SummaryTimeBlockView>, start: Seq<char>, end: Seq<char>)
    requires
        holds_window(s, start, end),
    ensures
        first_covering(s, start, end) is Some,
    decreases s.len(),
{
    if !covers(s[0], start, end) {
        let j = choose|j: int| 0 <= j < s.len() && covers(#[trigger] s[j], start, end);
        assert(s.drop_first()[j - 1] == s[j]);
        lemma_holds_window_found(s.drop_first(), start, end);
    }
}

proof fn lemma_merge_keeps_windows(
    s: Seq<SummaryTimeBlockView>,
    b: SummaryTimeBlockView,
    start: Seq<char>,
    end: Seq<char>,
)
    requires
        holds_window(s, start, end) || (b.start == start && b.end == end),
    ensures
        holds_window(spec_merge_block(s, b), start, end),
{
    broadcast use vstd::seq_lib::group_seq_properties;

    let t = spec_merge_block(s, b);
    if b.start == start && b.end == end {
        lemma_written_block_is_found(s, b);
        lemma_first_covering_member(t, start, end);
    } else {
        let j = choose|j: int| 0 <= j < s.len() && covers(#[trigger] s[j], start, end);
        let x = s[j];
        lemma_merge_keeps_other_windows(s, b, x);
        assert(s.contains(x));
        assert(s.to_multiset().count(x) > 0);
        assert(t.to_multiset().count(x) > 0);
        assert(t.contains(x));
        let k = choose|k: int| 0 <= k < t.len() && t[k] == x;
        assert(covers(t[k], start, end));
    }
}

proof fn lemma_first_covering_member(s: Seq<SummaryTimeBlockView>, start: Seq<char>, end: Seq<char>)
    requires
        first_covering(s, start, end) is Some,
    ensures
        holds_window(s, start, end),
    decreases s.len(),
{
    if !covers(s[0], start, end) {
        lemma_first_covering_member(s.drop_first(), start, end);
        let j = choose|j: int| 0 <= j < s.drop_first().len() && covers(#[trigger] s.drop_first()[j], start, end);
        assert(covers(s[j + 1], start, end));
    }
}

/// The cache after the blocks `bs` are written into `c` one after the other.
pub open spec fn merge_all(c: Seq<SummaryTimeBlockView>, bs: Seq<SummaryTimeBlockView>) -> Seq<
    SummaryTimeBlockView,
>
    decreases bs.len(),
{
    if bs.len() == 0 {
        c
    } else {
        spec_merge_block(merge_all(c, bs.drop_last()), bs.last())
    }
}

/// After a run of writes, the cache holds a block for every window written, and every
/// block of a window that none of the writes touched, as often as before.
pub proof fn lemma_merge_all(
    c: Seq<SummaryTimeBlockView>,
    bs: Seq<SummaryTimeBlockView>,
    x: SummaryTimeBlockView,
)
    ensures
        forall|i: int|
            0 <= i < bs.len() ==> holds_window(merge_all(c, bs), (#[trigger] bs[i]).start, bs[i].end),
        (forall|i: int| 0 <= i < bs.len() ==> !covers(x, (#[trigger] bs[i]).start, bs[i].end))
            ==> merge_all(c, bs).to_multiset().count(x) == c.to_multiset().count(x),
    decreases bs.len(),
{
    if bs.len() > 0 {
        let d = bs.drop_last();
        let b = bs.last();
        lemma_merge_all(c, d, x);
        let m = merge_all(c, d);
        assert forall|i: int| 0 <= i < bs.len() implies holds_window(
            merge_all(c, bs),
            (#[trigger] bs[i]).start,
            bs[i].end,
        ) by {
            if i < d.len() {
                assert(d[i] == bs[i]);
                lemma_merge_keeps_windows(m, b, bs[i].start, bs[i].end);
            } else {
                lemma_merge_keeps_windows(m, b, b.start, b.end);
            }
        }
        if forall|i: int| 0 <= i < bs.len() ==> !covers(x, (#[trigger] bs[i]).start, bs[i].end) {
            assert forall|i: int| 0 <= i < d.len() implies !covers(x, (#[trigger] d[i]).start, d[i].end) by {
                assert(d[i] == bs[i]);
            }
            assert(!covers(x, bs[bs.len() - 1].start, bs[bs.len() - 1].end));
            lemma_merge_keeps_other_windows(m, b, x);
        }
    }
}


// ---------------------------------------------------------------------------
// Window summaries from the summary agent
// ---------------------------------------------------------------------------

/// What a window's summary becomes from the agent's answer: the first time block, or
/// the error that the answer carries; a failure to get an answer stays an error.
pub fn window_answer(answer: Result<SummaryAgentResult, String>) -> (r: Result<
    Option<SummaryTimeBlock>,
    String,
>)
    ensures
        match answer {
            Err(e) => r matches Err(f) && f@ == e@,
            Ok(a) => match a.error {
                Some(e) => r matches Err(f) && f@ == e@,
                None => if a.time_blocks.len() > 0 {
                    r matches Ok(Some(b)) && b@ == a.time_blocks[0]@
                } else {
                    r matches Ok(None)
                },
            },
        },
{
    match answer {
        Err(e) => Err(e),
        Ok(a) => {
            let SummaryAgentResult { error, mut time_blocks, .. } = a;
            match error {
                Some(e) => Err(e),
                None => {
                    if time_blocks.len() > 0 {
                        Ok(Some(time_blocks.remove(0)))
                    } else {
                        Ok(None)
                    }
                },
            }
        },
    }
}

/// The agent's block for a window, with the window, the record count and the ratio
/// taken from the records rather than from the agent.
pub open spec fn spec_agent_block(
    b: SummaryTimeBlockView,
    start: LocalTime,
    end: LocalTime,
    s: Seq<LogEntryView>,
) -> SummaryTimeBlockView {
    SummaryTimeBlockView {
        start: hm_text(start),
        end: hm_text(end),
        record_count: s.len() as usize,
        on_project_ratio: spec_on_project_ratio(s),
        ..b
    }
}

/// The summary of a window: the local rules when summaries are off or the agent gave no
/// block, the agent's block otherwise, and the local rules with the error noted when the
/// agent failed.
pub open spec fn spec_window_summary(
    enabled: bool,
    start: LocalTime,
    end: LocalTime,
    s: Seq<LogEntryView>,
    agent: Result<Option<SummaryTimeBlockView>, Seq<char>>,
) -> SummaryTimeBlockView {
    if !enabled {
        spec_fallback_block(start, end, s, None)
    } else {
        match agent {
            Ok(Some(b)) => spec_agent_block(b, start, end, s),
            Ok(None) => spec_fallback_block(start, end, s, None),
            Err(e) => spec_fallback_block(start, end, s, Some(e)),
        }
    }
}

/// The summary of a window: the local rules when summaries are off or the agent gave no
/// block, the agent's block otherwise, and the local rules with the error noted when the
/// agent failed.
pub fn summarize_window(
    config: &AppConfig,
    start: LocalTime,
    end: LocalTime,
    entries: &Vec<LogEntry>,
    agent: Result<Option<SummaryTimeBlock>, String>,
) -> (block: SummaryTimeBlock)
    requires
        start.wf(),
        end.wf(),
        entries.len() <= usize::MAX / 100,
    ensures
        !config.summary_enabled ==> block@ == spec_fallback_block(
            start,
            end,
            entries.deep_view(),
            None,
        ),
        config.summary_enabled ==> match agent {
            Ok(Some(b)) => block@ == spec_agent_block(b@, start, end, entries.deep_view()),
            Ok(None) => block@ == spec_fallback_block(start, end, entries.deep_view(), None),
            Err(e) => block@ == spec_fallback_block(start, end, entries.deep_view(), Some(e@)),
        },
        block@ == spec_window_summary(
            config.summary_enabled,
            start,
            end,
            entries.deep_view(),
            agent_block_view(agent),
        ),
        config.summary_enabled ==> (agent matches Ok(Some(b)) ==> {
            &&& block.status == b.status
            &&& block.summary@ == b.summary@
            &&& block.evidence.deep_view() == b.evidence.deep_view()
            &&& block.error.deep_view() == b.error.deep_view()
            &&& block.record_count == entries.len()
        }),
{
    if !config.summary_enabled {
        return fallback_block(start, end, entries, None);
    }
    match agent {
        Ok(Some(mut block)) => {
            block.start = format_time(start);
            block.end = format_time(end);
            block.record_count = entries.len();
            block.on_project_ratio = on_project_ratio(entries);
            block
        },
        Ok(None) => fallback_block(start, end, entries, None),
        Err(error) => fallback_block(start, end, entries, Some(error)),
    }
}

/// Whether the previous half hour's summary goes to the agent: only when summaries are
/// on and the window has records.
pub fn wants_agent(config: &AppConfig, entries: &Vec<LogEntry>) -> (b: bool)
    ensures
        b == (config.summary_enabled && entries.len() > 0),
{
    config.summary_enabled && entries.len() > 0
}

/// The agent's answer about a window, by view.
pub open spec fn agent_block_view(agent: Result<Option<SummaryTimeBlock>, String>) -> Result<
    Option<SummaryTimeBlockView>,
    Seq<char>,
> {
    match agent {
        Ok(Some(b)) => Ok(Some(b@)),
        Ok(None) => Ok(None),
        Err(e) => Err(e@),
    }
}

/// The block written for a window: the local rules for an empty window or when summaries
/// are off, else the agent's block, the local rules when it gave none, and the local
/// rules with its error when it failed.
pub open spec fn spec_window_block(
    enabled: bool,
    start: LocalTime,
    end: LocalTime,
    s: Seq<LogEntryView>,
    agent: Result<Option<SummaryTimeBlockView>, Seq<char>>,
) -> SummaryTimeBlockView {
    if s.len() == 0 || !enabled {
        spec_fallback_block(start, end, s, None)
    } else {
        match agent {
            Ok(Some(b)) => spec_agent_block(b, start, end, s),
            Ok(None) => spec_fallback_block(start, end, s, None),
            Err(e) => spec_fallback_block(start, end, s, Some(e)),
        }
    }
}

/// The summary of the previous half hour: the local rules' "no records" block for an
/// empty window, else the window's summary.
pub fn window_block(
    config: &AppConfig,
    start: LocalTime,
    end: LocalTime,
    entries: &Vec<LogEntry>,
    agent: Result<Option<SummaryTimeBlock>, String>,
) -> (block: SummaryTimeBlock)
    requires
        start.wf(),
        end.wf(),
        entries.len() <= usize::MAX / 100,
    ensures
        entries.len() == 0 ==> block@ == spec_fallback_block(
            start,
            end,
            entries.deep_view(),
            None,
        ),
        entries.len() > 0 && !config.summary_enabled ==> block@ == spec_fallback_block(
            start,
            end,
            entries.deep_view(),
            None,
        ),
        entries.len() > 0 && config.summary_enabled ==> match agent {
            Ok(Some(b)) => block@ == spec_agent_block(b@, start, end, entries.deep_view()),
            Ok(None) => block@ == spec_fallback_block(start, end, entries.deep_view(), None),
            Err(e) => block@ == spec_fallback_block(start, end, entries.deep_view(), Some(e@)),
        },
        block@ == spec_window_block(
            config.summary_enabled,
            start,
            end,
            entries.deep_view(),
            agent_block_view(agent),
        ),
{
    if entries.len() == 0 {
        fallback_block(start, end, entries, None)
    } else {
        summarize_window(config, start, end, entries, agent)
    }
}

// ---------------------------------------------------------------------------
// The daily summary
// ---------------------------------------------------------------------------

/// The overview of a day without records.
pub const NO_RECORDS_TODAY: &'static str = "今天还没有可用于总结的记录。";

/// The first reflection prompt of the local rules.
pub const PROMPT_DRIFT: &'static str = "哪些时间段最容易偏离今日项目？";

/// The second reflection prompt of the local rules.
pub const PROMPT_TOMORROW: &'static str = "明天是否需要提前安排一个低干扰的启动任务？";

/// How the local rules judge a day from its record count and on-project share.
pub open spec fn spec_assessment(count: nat, ratio: u8) -> SummaryAssessment {
    if count == 0 {
        SummaryAssessment::InsufficientData
    } else if ratio >= 70 {
        SummaryAssessment::Focused
    } else if ratio >= 40 {
        SummaryAssessment::Mixed
    } else {
        SummaryAssessment::Drifted
    }
}

/// The overview the local rules write.
pub open spec fn spec_overview(count: nat, ratio: u8) -> Seq<char> {
    if count == 0 {
        NO_RECORDS_TODAY@
    } else {
        "今天共有 "@ + dec(count) + " 条记录，"@ + dec(ratio as nat) + "% 符合今日项目。"@
    }
}

/// The windows that strayed from the project, each as "start - end" with its summary.
pub open spec fn drifts_of(blocks: Seq<SummaryTimeBlockView>) -> Seq<NotableDriftView>
    decreases blocks.len(),
{
    if blocks.len() == 0 {
        Seq::empty()
    } else {
        let b = blocks.last();
        drifts_of(blocks.drop_last()) + if b.status == SummaryBlockStatus::OffProject {
            seq![NotableDriftView { time: b.start + " - "@ + b.end, reason: b.summary }]
        } else {
            Seq::empty()
        }
    }
}

/// The records recognised without an error, in order.
pub open spec fn clear_records(s: Seq<LogEntryView>) -> Seq<LogEntryView>
    decreases s.len(),
{
    if s.len() == 0 {
        s
    } else {
        clear_records(s.drop_last()) + if s.last().error is None {
            seq![s.last()]
        } else {
            Seq::empty()
        }
    }
}

/// The records recognised without an error.
fn clear_entries(entries: &Vec<LogEntry>) -> (clear: Vec<LogEntry>)
    ensures
        clear.deep_view() == clear_records(entries.deep_view()),
        clear.len() <= entries.len(),
{
    let ghost s = entries.deep_view();
    let mut clear: Vec<LogEntry> = Vec::new();
    let mut i: usize = 0;
    while i < entries.len()
        invariant
            s == entries.deep_view(),
            i <= entries.len(),
            clear.len() <= i,
            clear.deep_view() == clear_records(s.take(i as int)),
        decreases entries.len() - i,
    {
        if entries[i].error.is_none() {
            clear.push(entries[i].duplicate());
        }
        i = i + 1;
        assert(s.take(i as int).drop_last() =~= s.take(i - 1));
        assert(clear.deep_view() =~= clear_records(s.take(i as int)));
    }
    assert(s.take(i as int) =~= s);
    clear
}

/// The day's summary that the local rules write. The verdict is drawn from the records
/// recognised without an error: a failed recognition is no sign of drift.
pub open spec fn spec_fallback_daily(
    s: Seq<LogEntryView>,
    blocks: Seq<SummaryTimeBlockView>,
) -> SummaryAgentResultView {
    let ratio = spec_on_project_ratio(s);
    SummaryAgentResultView {
        overview: spec_overview(s.len(), ratio),
        project_alignment: ProjectAlignment {
            on_project_ratio: ratio,
            assessment: spec_assessment(
                clear_records(s).len(),
                spec_on_project_ratio(clear_records(s)),
            ),
        },
        time_blocks: blocks,
        notable_drifts: drifts_of(blocks),
        reflection_prompts: seq![PROMPT_DRIFT@, PROMPT_TOMORROW@],
        error: None,
    }
}

/// The drift entries for the windows that strayed from the project.
fn collect_drifts(blocks: &Vec<SummaryTimeBlock>) -> (drifts: Vec<NotableDrift>)
    ensures
        drifts.deep_view() == drifts_of(blocks.deep_view()),
{
    let ghost s = blocks.deep_view();
    let mut drifts: Vec<NotableDrift> = Vec::new();
    let mut i: usize = 0;
    while i < blocks.len()
        invariant
            s == blocks.deep_view(),
            i <= blocks.len(),
            drifts.deep_view() == drifts_of(s.take(i as int)),
        decreases blocks.len() - i,
    {
        let ghost before = drifts.deep_view();
        let b = &blocks[i];
        if b.status == SummaryBlockStatus::OffProject {
            let mut time: Vec<char> = Vec::new();
            push_str(&mut time, b.start.as_str());
            push_str(&mut time, " - ");
            push_str(&mut time, b.end.as_str());
            drifts.push(NotableDrift { time: string_from_chars(time.as_slice()), reason: b.summary.clone() });
        }
        i = i + 1;
        assert(s.take(i as int).drop_last() =~= s.take(i - 1));
        assert(drifts.deep_view() =~= drifts_of(s.take(i as int)));
    }
    assert(s.take(i as int) =~= s);
    drifts
}

/// A copy of a list of blocks.
pub fn copy_blocks(blocks: &Vec<SummaryTimeBlock>) -> (r: Vec<SummaryTimeBlock>)
    ensures
        r.deep_view() == blocks.deep_view(),
{
    let mut r: Vec<SummaryTimeBlock> = Vec::new();
    let mut i: usize = 0;
    while i < blocks.len()
        invariant
            i <= blocks.len(),
            r.deep_view() == blocks.deep_view().take(i as int),
        decreases blocks.len() - i,
    {
        let ghost before = r.deep_view();
        let b = blocks[i].duplicate();
        r.push(b);
        assert(r.deep_view() =~= before.push(blocks.deep_view()[i as int]));
        i = i + 1;
        assert(blocks.deep_view().take(i as int) =~= blocks.deep_view().take(i - 1).push(
            blocks.deep_view()[i - 1],
        ));
    }
    assert(blocks.deep_view().take(i as int) =~= blocks.deep_view());
    r
}

/// The day's summary by the local rules: the on-project share, the verdict drawn from the
/// records recognised without an error, the cached window blocks, the windows that
/// strayed, and two fixed reflection prompts.
pub fn fallback_daily_result(entries: &Vec<LogEntry>, blocks: &Vec<SummaryTimeBlock>) -> (result:
    SummaryAgentResult)
    requires
        entries.len() <= usize::MAX / 100,
    ensures
        result@ == spec_fallback_daily(entries.deep_view(), blocks.deep_view()),
{
    let ratio = on_project_ratio(entries);
    let clear = clear_entries(entries);
    let clear_ratio = on_project_ratio(&clear);
    let assessment = if clear.len() == 0 {
        SummaryAssessment::InsufficientData
    } else if clear_ratio >= 70 {
        SummaryAssessment::Focused
    } else if clear_ratio >= 40 {
        SummaryAssessment::Mixed
    } else {
        SummaryAssessment::Drifted
    };
    let overview = if entries.len() == 0 {
        owned(NO_RECORDS_TODAY)
    } else {
        let mut text: Vec<char> = Vec::new();
        push_str(&mut text, "今天共有 ");
        push_dec(&mut text, entries.len() as u64);
        push_str(&mut text, " 条记录，");
        push_dec(&mut text, ratio as u64);
        push_str(&mut text, "% 符合今日项目。");
        string_from_chars(text.as_slice())
    };
    let notable_drifts = collect_drifts(blocks);
    let mut reflection_prompts: Vec<String> = Vec::new();
    reflection_prompts.push(owned(PROMPT_DRIFT));
    reflection_prompts.push(owned(PROMPT_TOMORROW));
    assert(reflection_prompts.deep_view() =~= seq![PROMPT_DRIFT@, PROMPT_TOMORROW@]);
    SummaryAgentResult {
        overview,
        project_alignment: ProjectAlignment { on_project_ratio: ratio, assessment },
        time_blocks: copy_blocks(blocks),
        notable_drifts,
        reflection_prompts,
        error: None,
    }
}

/// Whether the day's summary goes to the agent: only when summaries are on and the day
/// has records (a day without records gets the local "no data" report).
pub fn daily_wants_agent(config: &AppConfig, entries: &Vec<LogEntry>) -> (b: bool)
    ensures
        b == (config.summary_enabled && entries.len() > 0),
{
    config.summary_enabled && entries.len() > 0
}

/// Summaries are on, the day has records, and the agent answered without error.
pub open spec fn usable_answer(
    enabled: bool,
    count: nat,
    agent: Result<SummaryAgentResult, String>,
) -> bool {
    enabled && count > 0 && match agent {
        Ok(a) => a.error is None,
        Err(_) => false,
    }
}

/// Why the agent's answer was not used, when it was asked: its error, or the error it
/// reported in its answer.
pub open spec fn agent_failure(
    enabled: bool,
    count: nat,
    agent: Result<SummaryAgentResult, String>,
) -> Option<Seq<char>> {
    if enabled && count > 0 {
        match agent {
            Ok(a) => a.error.deep_view(),
            Err(e) => Some(e@),
        }
    } else {
        None
    }
}

/// A summary with its error replaced.
pub open spec fn with_error(r: SummaryAgentResultView, error: Option<Seq<char>>) -> SummaryAgentResultView {
    SummaryAgentResultView {
        overview: r.overview,
        project_alignment: r.project_alignment,
        time_blocks: r.time_blocks,
        notable_drifts: r.notable_drifts,
        reflection_prompts: r.reflection_prompts,
        error,
    }
}

/// The day's summary: the agent's answer when summaries are on, the day has records and
/// the answer came without error; else the local rules' summary, which keeps the reason
/// the agent failed so that the report can say it was unavailable.
pub fn choose_daily_result(
    config: &AppConfig,
    entries: &Vec<LogEntry>,
    blocks: &Vec<SummaryTimeBlock>,
    agent: Result<SummaryAgentResult, String>,
) -> (result: SummaryAgentResult)
    requires
        entries.len() <= usize::MAX / 100,
    ensures
        usable_answer(config.summary_enabled, entries.len() as nat, agent) ==> result@
            == agent->Ok_0@,
        !usable_answer(config.summary_enabled, entries.len() as nat, agent) ==> result@
            == with_error(
            spec_fallback_daily(entries.deep_view(), blocks.deep_view()),
            agent_failure(config.summary_enabled, entries.len() as nat, agent),
        ),
{
    let mut failure: Option<String> = None;
    if config.summary_enabled && entries.len() > 0 {
        match agent {
            Ok(a) => {
                if a.error.is_none() {
                    return a;
                }
                failure = a.error;
            },
            Err(e) => {
                failure = Some(e);
            },
        }
    }
    let mut result = fallback_daily_result(entries, blocks);
    result.error = failure;
    result
}


// ---------------------------------------------------------------------------
// Completed windows that still need a summary
// ---------------------------------------------------------------------------

/// The cache already holds a window that starts at `start` and ends thirty minutes later.
pub open spec fn window_cached(cached: Seq<SummaryTimeBlockView>, start: LocalTime) -> bool {
    exists|end: LocalTime|
        later_by_half_hour(start, end) && (#[trigger] first_covering(cached, hm_text(start), hm_text(end)))
            is Some
}

/// An entry lies in a half hour that began before `current` did and whose summary is not cached.
pub open spec fn awaits_summary(
    e: LogEntryView,
    current: LocalTime,
    cached: Seq<SummaryTimeBlockView>,
) -> bool {
    let b = spec_bucket_start(e.timestamp);
    b.spec_earlier(current) && !window_cached(cached, b)
}

/// Every timestamp is a reading that the local time zone can shift.
pub open spec fn timestamps_wf(s: Seq<LogEntryView>) -> bool {
    forall|k: int| 0 <= k < s.len() ==> (#[trigger] s[k]).timestamp.shiftable()
}

/// The half hours of the records come from one time zone: two of them that start at the
/// same instant are the same reading.
pub open spec fn one_zone(s: Seq<LogEntryView>) -> bool {
    forall|j: int, k: int|
        0 <= j < s.len() && 0 <= k < s.len() && (#[trigger] spec_bucket_start(s[j].timestamp)).same_instant(
            #[trigger] spec_bucket_start(s[k].timestamp),
        ) ==> spec_bucket_start(s[j].timestamp) == spec_bucket_start(s[k].timestamp)
}

/// Windows ordered strictly by the instants they start at.
pub open spec fn windows_in_order(w: Seq<(LocalTime, LocalTime)>) -> bool {
    forall|a: int, b: int| 0 <= a < b < w.len() ==> (#[trigger] w[a]).0.spec_earlier((#[trigger] w[b]).0)
}

/// The index of a window that starts at the instant of `b`, if any.
fn find_window(windows: &Vec<(LocalTime, LocalTime)>, b: LocalTime) -> (r: Option<usize>)
    ensures
        match r {
            Some(j) => j < windows.len() && windows[j as int].0.same_instant(b),
            None => forall|m: int| 0 <= m < windows.len() ==> !(#[trigger] windows[m]).0.same_instant(b),
        },
{
    let mut j: usize = 0;
    while j < windows.len()
        invariant
            j <= windows.len(),
            forall|m: int| 0 <= m < j ==> !(#[trigger] windows[m]).0.same_instant(b),
        decreases windows.len() - j,
    {
        if !windows[j].0.earlier(&b) && !b.earlier(&windows[j].0) {
            return Some(j);
        }
        j = j + 1;
    }
    None
}

/// Puts a window into its place among windows ordered by start.
fn insert_window(windows: &mut Vec<(LocalTime, LocalTime)>, w: (LocalTime, LocalTime))
    requires
        windows_in_order(old(windows)@),
        forall|m: int| 0 <= m < old(windows).len() ==> !(#[trigger] old(windows)[m]).0.same_instant(w.0),
    ensures
        windows_in_order(final(windows)@),
        final(windows)@.len() == old(windows)@.len() + 1,
        forall|x: (LocalTime, LocalTime)| #[trigger] final(windows)@.contains(x) <==> (old(windows)@.contains(x) || x == w),
{
    let ghost before = windows@;
    let b = w.0;
    let mut p = windows.len();
    while p > 0 && !windows[p - 1].0.earlier(&b)
        invariant
            p <= windows.len(),
            windows@ == before,
            forall|m: int| p <= m < windows.len() ==> !(#[trigger] windows[m]).0.spec_earlier(b),
        decreases p,
    {
        p = p - 1;
    }
    proof {
        assert forall|m: int| 0 <= m < p implies (#[trigger] windows[m]).0.spec_earlier(b) by {
            if m < p - 1 {
                assert(windows[m].0.spec_earlier(windows[p - 1].0));
            }
        }
        assert forall|m: int| p <= m < windows.len() implies b.spec_earlier((#[trigger] windows[m]).0) by {
            assert(!windows[m].0.same_instant(b));
        }
    }
    windows.insert(p, w);
    proof {
        assert forall|x: int, y: int| 0 <= x < y < windows.len() implies (#[trigger] windows[x]).0.spec_earlier(
            (#[trigger] windows[y]).0,
        ) by {
            if x < p && y > p {
                assert(windows[x] == before[x]);
                assert(windows[y] == before[y - 1]);
            } else if x < p && y == p {
            } else if x == p {
                assert(windows[y] == before[y - 1]);
            } else if y < p {
                assert(windows[x] == before[x] && windows[y] == before[y]);
            } else {
                assert(windows[x] == before[x - 1] && windows[y] == before[y - 1]);
            }
        }
        assert forall|x: (LocalTime, LocalTime)| #[trigger] windows@.contains(x) <==> (before.contains(x) || x == w) by {
            if windows@.contains(x) {
                let a = choose|a: int| 0 <= a < windows@.len() && windows@[a] == x;
                if a < p {
                    assert(before[a] == x);
                } else if a > p {
                    assert(before[a - 1] == x);
                }
            }
            if before.contains(x) {
                let a = choose|a: int| 0 <= a < before.len() && before[a] == x;
                if a < p {
                    assert(windows@[a] == x);
                } else {
                    assert(windows@[a + 1] == x);
                }
            }
            if x == w {
                assert(windows@[p as int] == x);
            }
        }
    }
}

/// What a window that still needs its summary satisfies, given the entries up to `i`: it
/// starts on a half-hour boundary before `current`, ends thirty minutes later, has no cached
/// block, and is the half hour of one of those entries.
pub open spec fn pending_window(
    w: (LocalTime, LocalTime),
    s: Seq<LogEntryView>,
    i: int,
    current: LocalTime,
    c: Seq<SummaryTimeBlockView>,
) -> bool {
    &&& w.0.wf()
    &&& w.0.on_half_hour()
    &&& later_by_half_hour(w.0, w.1)
    &&& w.0.spec_earlier(current)
    &&& first_covering(c, hm_text(w.0), hm_text(w.1)) is None
    &&& exists|k: int| 0 <= k < i && spec_bucket_start(#[trigger] s[k].timestamp) == w.0
}

/// The half-hour windows, earliest first, that began before the current one did, hold
/// records, and have no cached summary; each starts where one of its records' half hour
/// starts (records whose half hours start at the same instant share a window) and ends
/// thirty minutes later in the local time zone.
pub fn completed_windows(
    entries: &Vec<LogEntry>,
    now: LocalTime,
    cached: &Vec<SummaryTimeBlock>,
) -> (windows: Vec<(LocalTime, LocalTime)>)
    requires
        now.wf(),
        timestamps_wf(entries.deep_view()),
    ensures
        windows_in_order(windows@),
        forall|i: int|
            0 <= i < windows.len() ==> pending_window(
                #[trigger] windows[i],
                entries.deep_view(),
                entries.len() as int,
                spec_bucket_start(now),
                cached.deep_view(),
            ),
        forall|k: int|
            0 <= k < entries.len() && awaits_summary(
                #[trigger] entries.deep_view()[k],
                spec_bucket_start(now),
                cached.deep_view(),
            ) ==> exists|i: int|
                0 <= i < windows.len() && (#[trigger] windows[i]).0.same_instant(
                    spec_bucket_start(entries.deep_view()[k].timestamp),
                ),
{
    let ghost s = entries.deep_view();
    let ghost c = cached.deep_view();
    let current = bucket_start(now);
    let mut windows: Vec<(LocalTime, LocalTime)> = Vec::new();
    let mut i: usize = 0;
    while i < entries.len()
        invariant
            s == entries.deep_view(),
            c == cached.deep_view(),
            timestamps_wf(s),
            current == spec_bucket_start(now),
            i <= entries.len(),
            windows_in_order(windows@),
            forall|a: int| 0 <= a < windows.len() ==> pending_window(#[trigger] windows[a], s, i as int, current, c),
            forall|k: int|
                0 <= k < i && awaits_summary(#[trigger] s[k], current, c) ==> exists|a: int|
                    0 <= a < windows.len() && (#[trigger] windows[a]).0.same_instant(
                        spec_bucket_start(s[k].timestamp),
                    ),
        decreases entries.len() - i,
    {
        assert(s[i as int].timestamp.shiftable());
        let ghost before = windows@;
        let b = bucket_start(entries[i].timestamp);
        let ghost mut end_seen: Option<LocalTime> = None;
        if b.earlier(&current) {
            let end = half_hour_later(b);
            proof {
                end_seen = Some(end);
            }
            if !has_cached_block(cached, b, end) {
                match find_window(&windows, b) {
                    Some(j) => {},
                    None => {
                        insert_window(&mut windows, (b, end));
                    },
                }
            }
        }
        proof {
            assert forall|a: int| 0 <= a < windows.len() implies pending_window(#[trigger] windows[a], s, i + 1, current, c) by {
                let w = windows[a];
                assert(windows@.contains(w));
                if before.contains(w) {
                    let a2 = choose|a2: int| 0 <= a2 < before.len() && before[a2] == w;
                    assert(pending_window(before[a2], s, i as int, current, c));
                    let k = choose|k: int| 0 <= k < i && spec_bucket_start(#[trigger] s[k].timestamp) == w.0;
                    assert(0 <= k < i + 1 && spec_bucket_start(s[k].timestamp) == w.0);
                } else {
                    assert(spec_bucket_start(s[i as int].timestamp) == w.0);
                }
            }
            assert forall|k: int|
                0 <= k < i + 1 && awaits_summary(#[trigger] s[k], current, c) implies exists|a: int|
                0 <= a < windows.len() && (#[trigger] windows[a]).0.same_instant(
                    spec_bucket_start(s[k].timestamp),
                ) by {
                if k < i {
                    let a = choose|a: int|
                        0 <= a < before.len() && (#[trigger] before[a]).0.same_instant(
                            spec_bucket_start(s[k].timestamp),
                        );
                    assert(before.contains(before[a]));
                    assert(windows@.contains(before[a]));
                    let a3 = choose|a3: int| 0 <= a3 < windows@.len() && windows@[a3] == before[a];
                    assert(windows[a3].0.same_instant(spec_bucket_start(s[k].timestamp)));
                } else {
                    let end = end_seen->Some_0;
                    assert(later_by_half_hour(b, end));
                    if windows@ == before {
                        let j = choose|j: int| 0 <= j < windows.len() && windows[j].0.same_instant(b);
                        assert(windows[j].0.same_instant(b));
                    } else {
                        assert(windows@.contains((b, end)));
                        let a3 = choose|a3: int| 0 <= a3 < windows@.len() && windows@[a3] == (b, end);
                        assert(windows[a3].0.same_instant(b));
                    }
                }
            }
        }
        i = i + 1;
    }
    windows
}

/// The entries whose half hour starts at the instant of `start`.
pub open spec fn entries_of_bucket(s: Seq<LogEntryView>, start: LocalTime) -> Seq<LogEntryView>
    decreases s.len(),
{
    if s.len() == 0 {
        s
    } else {
        entries_of_bucket(s.drop_last(), start) + if spec_bucket_start(s.last().timestamp).same_instant(
            start,
        ) {
            seq![s.last()]
        } else {
            Seq::empty()
        }
    }
}

/// The entries recorded in the half hour that starts at `start`.
pub fn entries_in_bucket(entries: &Vec<LogEntry>, start: LocalTime) -> (within: Vec<LogEntry>)
    requires
        timestamps_wf(entries.deep_view()),
    ensures
        within.deep_view() == entries_of_bucket(entries.deep_view(), start),
        within.len() <= entries.len(),
{
    let ghost s = entries.deep_view();
    let mut within: Vec<LogEntry> = Vec::new();
    let mut i: usize = 0;
    while i < entries.len()
        invariant
            s == entries.deep_view(),
            timestamps_wf(s),
            i <= entries.len(),
            within.len() <= i,
            within.deep_view() == entries_of_bucket(s.take(i as int), start),
        decreases entries.len() - i,
    {
        let ghost before = within.deep_view();
        assert(s[i as int].timestamp.wf());
        let b = bucket_start(entries[i].timestamp);
        if !b.earlier(&start) && !start.earlier(&b) {
            within.push(entries[i].duplicate());
        }
        i = i + 1;
        assert(s.take(i as int).drop_last() =~= s.take(i - 1));
        assert(within.deep_view() =~= entries_of_bucket(s.take(i as int), start));
    }
    assert(s.take(i as int) =~= s);
    within
}


// ---------------------------------------------------------------------------
// The daily report
// ---------------------------------------------------------------------------

/// Shown for the project when no record names one.
pub const UNSET_PROJECT: &'static str = "未设置";

/// The project the report names: that of the first record with a non-blank project.
pub open spec fn project_of(s: Seq<LogEntryView>) -> Seq<char>
    decreases s.len(),
{
    if s.len() == 0 {
        UNSET_PROJECT@
    } else if !all_space(s[0].project) {
        s[0].project
    } else {
        project_of(s.drop_first())
    }
}

/// The evidence lines under a window.
pub open spec fn evidence_lines(ev: Seq<Seq<char>>) -> Seq<char>
    decreases ev.len(),
{
    if ev.len() == 0 {
        Seq::empty()
    } else {
        evidence_lines(ev.drop_last()) + "  - 依据："@ + ev.last() + "\n"@
    }
}

/// A window's line in the report, with at most two lines of evidence.
pub open spec fn block_lines(b: SummaryTimeBlockView) -> Seq<char> {
    "- "@ + b.start + " - "@ + b.end + " | "@ + spec_status_label(b.status) + " | "@ + dec(
        b.on_project_ratio as nat,
    ) + "% | "@ + b.summary + "\n"@ + evidence_lines(first_two(b.evidence))
}

/// The lines of all windows.
pub open spec fn blocks_lines(bs: Seq<SummaryTimeBlockView>) -> Seq<char>
    decreases bs.len(),
{
    if bs.len() == 0 {
        Seq::empty()
    } else {
        blocks_lines(bs.drop_last()) + block_lines(bs.last())
    }
}

/// The lines of the drifts.
pub open spec fn drift_lines(ds: Seq<NotableDriftView>) -> Seq<char>
    decreases ds.len(),
{
    if ds.len() == 0 {
        Seq::empty()
    } else {
        drift_lines(ds.drop_last()) + "- "@ + ds.last().time + "："@ + ds.last().reason + "\n"@
    }
}

/// The lines of the reflection prompts.
pub open spec fn prompt_lines(ps: Seq<Seq<char>>) -> Seq<char>
    decreases ps.len(),
{
    if ps.len() == 0 {
        Seq::empty()
    } else {
        prompt_lines(ps.drop_last()) + "- "@ + ps.last() + "\n"@
    }
}

/// The head of the daily report, down to the heading of the window section.
pub open spec fn report_head(
    today: CivilDate,
    s: Seq<LogEntryView>,
    r: SummaryAgentResultView,
) -> Seq<char> {
    "# MindBack 今日监督日志\n\n"@ + "- 日期："@ + today.spec_text() + "\n"@ + "- 今日项目："@
        + project_of(s) + "\n"@ + "- 总记录数："@ + dec(s.len()) + "\n"@ + "- 符合今日项目："@
        + dec(r.project_alignment.on_project_ratio as nat) + "%\n"@ + "- 整体判断："@
        + spec_assessment_label(r.project_alignment.assessment) + "\n\n"@ + "## 总览\n\n"@
        + r.overview + "\n\n## 时间段摘要\n\n"@
}

/// The closing line that says the agent was unavailable, when the summary carries its error.
pub open spec fn unavailable_note(error: Option<Seq<char>>) -> Seq<char> {
    match error {
        Some(e) => "\n> "@ + AGENT_UNAVAILABLE_PREFIX@ + e + "\n"@,
        None => Seq::empty(),
    }
}

/// The daily report, in Markdown.
pub open spec fn spec_summary_markdown(
    today: CivilDate,
    s: Seq<LogEntryView>,
    r: SummaryAgentResultView,
) -> Seq<char> {
    report_head(today, s, r) + (if r.time_blocks.len() == 0 {
        "- 暂无已完成半小时窗口摘要。\n"@
    } else {
        blocks_lines(r.time_blocks)
    }) + (if r.notable_drifts.len() > 0 {
        "\n## 明显偏离或不确定片段\n\n"@ + drift_lines(r.notable_drifts)
    } else {
        Seq::empty()
    }) + "\n## 复盘问题\n\n"@ + prompt_lines(r.reflection_prompts)
        + "\n> 由 AI 总结生成，基于本地监督日志；请以原始记录为准。\n"@ + unavailable_note(r.error)
}

/// The project the report names.
fn report_project(entries: &Vec<LogEntry>) -> (project: String)
    ensures
        project@ == project_of(entries.deep_view()),
{
    let ghost s = entries.deep_view();
    let mut i: usize = 0;
    assert(s.skip(0) =~= s);
    while i < entries.len()
        invariant
            s == entries.deep_view(),
            i <= entries.len(),
            project_of(s) == project_of(s.skip(i as int)),
        decreases entries.len() - i,
    {
        assert(s.skip(i as int)[0] == entries[i as int]@);
        if !is_blank(entries[i].project.as_str()) {
            return entries[i].project.clone();
        }
        assert(s.skip(i as int).drop_first() =~= s.skip(i + 1));
        i = i + 1;
    }
    owned(UNSET_PROJECT)
}

fn push_block_lines(out: &mut Vec<char>, b: &SummaryTimeBlock)
    ensures
        final(out)@ == old(out)@ + block_lines(b@),
{
    push_str(out, "- ");
    push_str(out, b.start.as_str());
    push_str(out, " - ");
    push_str(out, b.end.as_str());
    push_str(out, " | ");
    push_str(out, status_label(&b.status));
    push_str(out, " | ");
    push_dec(out, b.on_project_ratio as u64);
    push_str(out, "% | ");
    push_str(out, b.summary.as_str());
    push_str(out, "\n");
    let ghost head = out@;
    assert(head =~= old(out)@ + ("- "@ + b@.start + " - "@ + b@.end + " | "@ + spec_status_label(b@.status) + " | "@ + dec(
        b@.on_project_ratio as nat,
    ) + "% | "@ + b@.summary + "\n"@));
    let ghost ev = b.evidence.deep_view();
    let mut k: usize = 0;
    let limit: usize = if b.evidence.len() < 2 {
        b.evidence.len()
    } else {
        2
    };
    assert(first_two(ev) =~= ev.take(limit as int));
    while k < limit
        invariant
            ev == b.evidence.deep_view(),
            limit <= b.evidence.len(),
            k <= limit,
            out@ == head + evidence_lines(ev.take(k as int)),
        decreases limit - k,
    {
        push_str(out, "  - 依据：");
        push_str(out, b.evidence[k].as_str());
        push_str(out, "\n");
        k = k + 1;
        assert(ev.take(k as int).drop_last() =~= ev.take(k - 1));
        assert(out@ =~= head + evidence_lines(ev.take(k as int)));
    }
    assert(out@ =~= old(out)@ + block_lines(b@));
}

/// The daily report, in Markdown: date, project, record count, share and the day's verdict,
/// the overview, the windows, the drifts, the reflection prompts and a closing note, then
/// a line saying the agent was unavailable when the summary carries its error.
#[verifier::spinoff_prover]
#[verifier::rlimit(50)]
pub fn summary_markdown(
    today: CivilDate,
    entries: &Vec<LogEntry>,
    result: &SummaryAgentResult,
) -> (content: String)
    requires
        today.wf(),
    ensures
        content@ == spec_summary_markdown(today, entries.deep_view(), result@),
{
    let ghost s = entries.deep_view();
    let ghost r = result@;
    let project = report_project(entries);
    let mut out: Vec<char> = Vec::new();
    push_str(&mut out, "# MindBack 今日监督日志\n\n");
    push_str(&mut out, "- 日期：");
    push_str(&mut out, today.text().as_str());
    push_str(&mut out, "\n");
    push_str(&mut out, "- 今日项目：");
    push_str(&mut out, project.as_str());
    push_str(&mut out, "\n");
    push_str(&mut out, "- 总记录数：");
    push_dec(&mut out, entries.len() as u64);
    push_str(&mut out, "\n");
    push_str(&mut out, "- 符合今日项目：");
    push_dec(&mut out, result.project_alignment.on_project_ratio as u64);
    push_str(&mut out, "%\n");
    push_str(&mut out, "- 整体判断：");
    push_str(&mut out, assessment_label(&result.project_alignment.assessment));
    push_str(&mut out, "\n\n");
    push_str(&mut out, "## 总览\n\n");
    push_str(&mut out, result.overview.as_str());
    push_str(&mut out, "\n\n## 时间段摘要\n\n");
    assert(out@ =~= report_head(today, s, r));
    let ghost head = out@;
    if result.time_blocks.len() == 0 {
        push_str(&mut out, "- 暂无已完成半小时窗口摘要。\n");
    } else {
        let ghost bs = result.time_blocks.deep_view();
        let mut i: usize = 0;
        while i < result.time_blocks.len()
            invariant
                bs == result.time_blocks.deep_view(),
                i <= result.time_blocks.len(),
                out@ == head + blocks_lines(bs.take(i as int)),
            decreases result.time_blocks.len() - i,
        {
            push_block_lines(&mut out, &result.time_blocks[i]);
            i = i + 1;
            assert(bs.take(i as int).drop_last() =~= bs.take(i - 1));
            assert(out@ =~= head + blocks_lines(bs.take(i as int)));
        }
        assert(bs.take(i as int) =~= bs);
    }
    let ghost with_blocks = out@;
    if result.notable_drifts.len() > 0 {
        push_str(&mut out, "\n## 明显偏离或不确定片段\n\n");
        let ghost mid = out@;
        let ghost ds = result.notable_drifts.deep_view();
        let mut i: usize = 0;
        while i < result.notable_drifts.len()
            invariant
                ds == result.notable_drifts.deep_view(),
                i <= result.notable_drifts.len(),
                out@ == mid + drift_lines(ds.take(i as int)),
            decreases result.notable_drifts.len() - i,
        {
            push_str(&mut out, "- ");
            push_str(&mut out, result.notable_drifts[i].time.as_str());
            push_str(&mut out, "：");
            push_str(&mut out, result.notable_drifts[i].reason.as_str());
            push_str(&mut out, "\n");
            i = i + 1;
            assert(ds.take(i as int).drop_last() =~= ds.take(i - 1));
            assert(out@ =~= mid + drift_lines(ds.take(i as int)));
        }
        assert(ds.take(i as int) =~= ds);
    }
    let ghost with_drifts = out@;
    push_str(&mut out, "\n## 复盘问题\n\n");
    let ghost mid2 = out@;
    let ghost ps = result.reflection_prompts.deep_view();
    let mut i: usize = 0;
    while i < result.reflection_prompts.len()
        invariant
            ps == result.reflection_prompts.deep_view(),
            i <= result.reflection_prompts.len(),
            out@ == mid2 + prompt_lines(ps.take(i as int)),
        decreases result.reflection_prompts.len() - i,
    {
        push_str(&mut out, "- ");
        push_str(&mut out, result.reflection_prompts[i].as_str());
        push_str(&mut out, "\n");
        i = i + 1;
        assert(ps.take(i as int).drop_last() =~= ps.take(i - 1));
        assert(out@ =~= mid2 + prompt_lines(ps.take(i as int)));
    }
    assert(ps.take(i as int) =~= ps);
    push_str(&mut out, "\n> 由 AI 总结生成，基于本地监督日志；请以原始记录为准。\n");
    let ghost closed = out@;
    match &result.error {
        Some(e) => {
            push_str(&mut out, "\n> ");
            push_str(&mut out, AGENT_UNAVAILABLE_PREFIX);
            push_str(&mut out, e.as_str());
            push_str(&mut out, "\n");
            assert(out@ =~= closed + unavailable_note(r.error));
        },
        None => {
            assert(out@ =~= closed + unavailable_note(r.error));
        },
    }
    assert(out@ =~= spec_summary_markdown(today, s, r));
    string_from_chars(out.as_slice())
}


// ---------------------------------------------------------------------------
// Running the summary agent
// ---------------------------------------------------------------------------

/// The error when the agent cannot run for want of an API key.
pub const MISSING_API_KEY: &'static str = "DEEPSEEK_API_KEY is not set";

/// The agent cannot run: no API key is set, and the key is required (the requirement is
/// off only when its switch reads `0`).
pub open spec fn spec_key_missing(api_key: Option<Seq<char>>, require_key: Option<Seq<char>>) -> bool {
    &&& (api_key is None || api_key->Some_0.len() == 0)
    &&& !(require_key is Some && require_key->Some_0 == "0"@)
}

/// Whether the agent must not run for want of an API key.
pub fn summary_agent_key_missing(api_key: Option<&str>, require_key: Option<&str>) -> (missing: bool)
    ensures
        missing == spec_key_missing(
            match api_key {
                Some(k) => Some(k@),
                None => None,
            },
            match require_key {
                Some(r) => Some(r@),
                None => None,
            },
        ),
{
    let key_empty = match api_key {
        Some(k) => k.is_empty(),
        None => true,
    };
    let required = match require_key {
        Some(r) => !crate::text::str_eq(r, "0"),
        None => true,
    };
    key_empty && required
}

/// The command that runs the agent: the configured one, else `bun`.
pub fn summary_agent_command(configured: Option<String>) -> (command: String)
    ensures
        configured is Some ==> command@ == configured->Some_0@,
        configured is None ==> command@ == "bun"@,
{
    match configured {
        Some(c) => c,
        None => owned("bun"),
    }
}

/// The agent's script: the configured one, else `workers/summary_agent.ts`.
pub fn summary_agent_path(configured: Option<String>) -> (path: String)
    ensures
        configured is Some ==> path@ == configured->Some_0@,
        configured is None ==> path@ == "workers/summary_agent.ts"@,
{
    match configured {
        Some(c) => c,
        None => owned("workers/summary_agent.ts"),
    }
}

// ---------------------------------------------------------------------------
// The service
// ---------------------------------------------------------------------------

/// Summaries of the day's records, over a storage.
pub struct SummaryService<'a> {
    storage: &'a Storage,
}

impl<'a> SummaryService<'a> {
    pub fn new(storage: &'a Storage) -> (service: Self)
        ensures
            service.storage() == storage,
    {
        Self { storage }
    }

    pub closed spec fn storage(&self) -> &'a Storage {
        self.storage
    }

    /// The storage the summaries are kept in.
    pub fn storage_ref(&self) -> (storage: &'a Storage)
        ensures
            storage == self.storage(),
    {
        self.storage
    }

    /// The block the local rules write for a window.
    pub fn fallback_block(start: LocalTime, end: LocalTime, entries: &Vec<LogEntry>) -> (block:
        SummaryTimeBlock)
        requires
            start.wf(),
            end.wf(),
            entries.len() <= usize::MAX / 100,
        ensures
            block@ == spec_fallback_block(start, end, entries.deep_view(), None),
    {
        fallback_block(start, end, entries, None)
    }
}


// ---------------------------------------------------------------------------
// Laws of windows
// ---------------------------------------------------------------------------

/// A reading lies in the half hour its bucket starts: the bucket starts on a half-hour
/// boundary no later than the reading, the reading is earlier than any reading thirty
/// minutes after the bucket's start, and the bucket is its own bucket.
pub proof fn lemma_bucket_contains(t: LocalTime, end: LocalTime)
    requires
        t.wf(),
        later_by_half_hour(spec_bucket_start(t), end),
    ensures
        spec_bucket_start(t).on_half_hour(),
        !t.spec_earlier(spec_bucket_start(t)),
        t.spec_earlier(end),
        spec_bucket_start(spec_bucket_start(t)) == spec_bucket_start(t),
{
    reveal(LocalTime::spec_instant);
}

/// The previous completed window is the half hour just before the current one: it ends
/// where the current half hour starts, no later than `now`, and starts thirty minutes
/// earlier.
pub proof fn lemma_previous_window_is_last_closed(now: LocalTime, start: LocalTime)
    requires
        now.wf(),
        later_by_half_hour(start, spec_bucket_start(now)),
    ensures
        !now.spec_earlier(spec_bucket_start(now)),
        start.spec_earlier(spec_bucket_start(now)),
        !spec_bucket_start(now).spec_earlier(now) ==> now == spec_bucket_start(now),
{
    reveal(LocalTime::spec_instant);
}

/// The entries of a window all lie in it, keep their order, and include every entry of
/// the window.
pub proof fn lemma_entries_within(s: Seq<LogEntryView>, start: LocalTime, end: LocalTime)
    ensures
        forall|k: int|
            0 <= k < entries_within(s, start, end).len() ==> in_window(
                (#[trigger] entries_within(s, start, end)[k]).timestamp,
                start,
                end,
            ),
        forall|k: int|
            0 <= k < s.len() && in_window((#[trigger] s[k]).timestamp, start, end)
                ==> entries_within(s, start, end).contains(s[k]),
    decreases s.len(),
{
    if s.len() > 0 {
        let d = s.drop_last();
        lemma_entries_within(d, start, end);
        let w = entries_within(d, start, end);
        assert forall|k: int|
            0 <= k < s.len() && in_window((#[trigger] s[k]).timestamp, start, end) implies entries_within(
            s,
            start,
            end,
        ).contains(s[k]) by {
            if k < s.len() - 1 {
                assert(d[k] == s[k]);
                assert(w.contains(s[k]));
                let j = choose|j: int| 0 <= j < w.len() && w[j] == s[k];
                assert(entries_within(s, start, end)[j] == s[k]);
            } else {
                assert(entries_within(s, start, end)[w.len() as int] == s[k]);
            }
        }
    }
}

/// The previous half hour's summary never counts a record of the current half hour: every
/// entry of the window from `start` to the current half hour's start is earlier than that
/// start, which is no later than `now`.
pub proof fn lemma_previous_window_excludes_current(s: Seq<LogEntryView>, now: LocalTime, start: LocalTime)
    requires
        now.wf(),
    ensures
        ({
            let end = spec_bucket_start(now);
            &&& !now.spec_earlier(end)
            &&& forall|k: int|
                0 <= k < entries_within(s, start, end).len() ==> (#[trigger] entries_within(
                    s,
                    start,
                    end,
                )[k]).timestamp.spec_earlier(end) && !entries_within(s, start, end)[k].timestamp.spec_earlier(start)
        }),
{
    let end = spec_bucket_start(now);
    reveal(LocalTime::spec_instant);
    lemma_entries_within(s, start, end);
}

/// The evidence of a window's fallback block holds at most two items from the records,
/// and one more only when the agent failed.
pub proof fn lemma_fallback_evidence_bound(
    start: LocalTime,
    end: LocalTime,
    s: Seq<LogEntryView>,
    error: Option<Seq<char>>,
)
    ensures
        spec_fallback_block(start, end, s, error).evidence.len() <= if error is Some {
            3int
        } else {
            2int
        },
{
}

/// A window's fallback status follows its share: on project from 60 %, off project at
/// 0 % when some record was recognised cleanly, uncertain otherwise, and no data without
/// records. Failed recognitions alone never make a window off project.
pub proof fn lemma_fallback_status(start: LocalTime, end: LocalTime, s: Seq<LogEntryView>)
    ensures
        s.len() == 0 ==> spec_fallback_block(start, end, s, None).status
            == SummaryBlockStatus::InsufficientData,
        s.len() > 0 && count_on_project(s) == s.len() ==> spec_fallback_block(
            start,
            end,
            s,
            None,
        ).status == SummaryBlockStatus::OnProject,
        s.len() > 0 && count_on_project(s) == 0 && has_clear_record(s) ==> spec_fallback_block(
            start,
            end,
            s,
            None,
        ).status == SummaryBlockStatus::OffProject,
        s.len() > 0 && !has_clear_record(s) && count_on_project(s) == 0 ==> spec_fallback_block(
            start,
            end,
            s,
            None,
        ).status == SummaryBlockStatus::Uncertain,
        spec_fallback_block(start, end, s, None).status == SummaryBlockStatus::OffProject
            ==> has_clear_record(s),
{
    if s.len() > 0 {
        lemma_ratio_at_most_100(s);
        let c = count_on_project(s);
        let n = s.len();
        if c == n {
            assert((c * 100) / n == 100) by (nonlinear_arith)
                requires
                    c == n,
                    n > 0,
            ;
        }
        if c == 0 {
            assert((c * 100) / n == 0) by (nonlinear_arith)
                requires
                    c == 0,
                    n > 0,
            ;
        }
    }
}

/// One run of the previous half hour's summary for the window from `start` to `end`: the
/// cached block of the window and the cache unchanged when there is one; else the window's
/// block over the records inside it, and the cache with it written.
pub open spec fn spec_previous_half_hour(
    enabled: bool,
    start: LocalTime,
    end: LocalTime,
    cached: Seq<SummaryTimeBlockView>,
    s: Seq<LogEntryView>,
    agent: Result<Option<SummaryTimeBlockView>, Seq<char>>,
) -> (SummaryTimeBlockView, Seq<SummaryTimeBlockView>) {
    match first_covering(cached, hm_text(start), hm_text(end)) {
        Some(c) => (c, cached),
        None => {
            let b = spec_window_block(enabled, start, end, entries_within(s, start, end), agent);
            (b, spec_merge_block(cached, b))
        },
    }
}

proof fn lemma_entries_within_len(s: Seq<LogEntryView>, start: LocalTime, end: LocalTime)
    ensures
        entries_within(s, start, end).len() <= s.len(),
    decreases s.len(),
{
    if s.len() > 0 {
        lemma_entries_within_len(s.drop_last(), start, end);
    }
}

/// The previous half hour's summary over a whole run. A cached block is returned as it is
/// and nothing is written. Otherwise the block covers the window, counts the records
/// inside it, and is written once into the cache, which keeps every block of another
/// window. Either way the cache afterwards finds the returned block for the window, and
/// a second run, whatever the agent says, returns the same block and writes nothing new.
pub proof fn lemma_previous_half_hour(
    enabled: bool,
    start: LocalTime,
    end: LocalTime,
    cached: Seq<SummaryTimeBlockView>,
    s: Seq<LogEntryView>,
    agent: Result<Option<SummaryTimeBlockView>, Seq<char>>,
    again: Result<Option<SummaryTimeBlockView>, Seq<char>>,
    x: SummaryTimeBlockView,
)
    requires
        s.len() <= usize::MAX,
    ensures
        ({
            let r = spec_previous_half_hour(enabled, start, end, cached, s, agent);
            &&& first_covering(cached, hm_text(start), hm_text(end)) matches Some(c) ==> r.0 == c
                && r.1 == cached
            &&& first_covering(cached, hm_text(start), hm_text(end)) is None ==> {
                &&& r.0.start == hm_text(start)
                &&& r.0.end == hm_text(end)
                &&& r.0.record_count == entries_within(s, start, end).len()
                &&& r.1 == spec_merge_block(cached, r.0)
                &&& r.1.to_multiset().count(r.0) == 1
            }
            &&& first_covering(r.1, hm_text(start), hm_text(end)) == Some(r.0)
            &&& !covers(x, hm_text(start), hm_text(end)) ==> r.1.to_multiset().count(x)
                == cached.to_multiset().count(x)
            &&& spec_previous_half_hour(enabled, start, end, r.1, s, again) == r
        }),
{
    let within = entries_within(s, start, end);
    lemma_entries_within_len(s, start, end);
    match first_covering(cached, hm_text(start), hm_text(end)) {
        Some(c) => {},
        None => {
            let b = spec_window_block(enabled, start, end, within, agent);
            assert(b.start == hm_text(start) && b.end == hm_text(end));
            lemma_written_block_is_found(cached, b);
            lemma_merge_keeps_other_windows(cached, b, x);
        },
    }
}

/// One run of the previous half hour's summary for the window from `start` to `end`, once
/// the agent has answered or was not asked: the block the run returns, and the cache to
/// write when the window had no block yet (nothing to write otherwise). A cached block is
/// returned as it is. Otherwise the block covers the window, counts the day's records
/// inside it, and the cache to write holds it exactly once, finds it for the window, and
/// keeps every block of another window as often as before.
pub fn previous_half_hour_step(
    config: &AppConfig,
    start: LocalTime,
    end: LocalTime,
    cached: &Vec<SummaryTimeBlock>,
    entries: &Vec<LogEntry>,
    agent: Result<Option<SummaryTimeBlock>, String>,
) -> (r: (SummaryTimeBlock, Option<Vec<SummaryTimeBlock>>))
    requires
        start.wf(),
        end.wf(),
        entries.len() <= usize::MAX / 100,
    ensures
        ({
            let c = cached.deep_view();
            let s = entries.deep_view();
            let after = match r.1 {
                Some(w) => w.deep_view(),
                None => c,
            };
            &&& (r.0@, after) == spec_previous_half_hour(
                config.summary_enabled,
                start,
                end,
                c,
                s,
                agent_block_view(agent),
            )
            &&& first_covering(c, hm_text(start), hm_text(end)) matches Some(b) ==> r.0@ == b
                && r.1 is None
            &&& first_covering(c, hm_text(start), hm_text(end)) is None ==> {
                &&& r.1 is Some
                &&& r.0@.start == hm_text(start)
                &&& r.0@.end == hm_text(end)
                &&& r.0@.record_count == entries_within(s, start, end).len()
                &&& after.to_multiset().count(r.0@) == 1
            }
            &&& first_covering(after, hm_text(start), hm_text(end)) == Some(r.0@)
            &&& forall|x: SummaryTimeBlockView|
                !covers(x, hm_text(start), hm_text(end)) ==> after.to_multiset().count(x)
                    == c.to_multiset().count(x)
        }),
{
    let ghost c = cached.deep_view();
    let ghost s = entries.deep_view();
    let ghost a = agent_block_view(agent);
    proof {
        lemma_previous_half_hour(config.summary_enabled, start, end, c, s, a, a, arbitrary());
    }
    match find_cached_block(cached, start, end) {
        Some(b) => (b, None),
        None => {
            let within = entries_in_window(entries, start, end);
            let block = window_block(config, start, end, &within, agent);
            let ghost b = block@;
            let merged = merge_block(copy_blocks(cached), &block);
            proof {
                assert forall|x: SummaryTimeBlockView|
                    !covers(x, hm_text(start), hm_text(end)) implies merged.deep_view().to_multiset().count(x)
                    == c.to_multiset().count(x) by {
                    lemma_previous_half_hour(config.summary_enabled, start, end, c, s, a, a, x);
                }
            }
            (block, Some(merged))
        },
    }
}

/// The completed windows' summaries written into the cache `c`: with `bs[i]` the block
/// written for `ws[i]`, and `ws` holding the window of every record that awaited a
/// summary before `current`, the cache afterwards holds a block for each such record's
/// half hour, and every cached block of an untouched window as often as before.
pub proof fn lemma_completed_windows_cached(
    s: Seq<LogEntryView>,
    current: LocalTime,
    c: Seq<SummaryTimeBlockView>,
    ws: Seq<(LocalTime, LocalTime)>,
    bs: Seq<SummaryTimeBlockView>,
    x: SummaryTimeBlockView,
)
    requires
        bs.len() == ws.len(),
        forall|i: int|
            0 <= i < ws.len() ==> later_by_half_hour((#[trigger] ws[i]).0, ws[i].1)
                && bs[i].start == hm_text(ws[i].0) && bs[i].end == hm_text(ws[i].1),
        forall|k: int|
            0 <= k < s.len() && awaits_summary(#[trigger] s[k], current, c) ==> exists|i: int|
                0 <= i < ws.len() && (#[trigger] ws[i]).0.same_instant(spec_bucket_start(s[k].timestamp)),
        forall|i: int| 0 <= i < ws.len() ==> exists|k: int|
            0 <= k < s.len() && spec_bucket_start(#[trigger] s[k].timestamp) == (#[trigger] ws[i]).0,
    ensures
        forall|k: int|
            0 <= k < s.len() && awaits_summary(#[trigger] s[k], current, c) ==> exists|i: int|
                0 <= i < ws.len() && (#[trigger] ws[i]).0.same_instant(spec_bucket_start(s[k].timestamp))
                    && window_cached(merge_all(c, bs), ws[i].0),
        one_zone(s) ==> forall|k: int|
            0 <= k < s.len() && awaits_summary(#[trigger] s[k], current, c) ==> window_cached(
                merge_all(c, bs),
                spec_bucket_start(s[k].timestamp),
            ),
        (forall|i: int| 0 <= i < bs.len() ==> !covers(x, (#[trigger] bs[i]).start, bs[i].end))
            ==> merge_all(c, bs).to_multiset().count(x) == c.to_multiset().count(x),
{
    lemma_merge_all(c, bs, x);
    let m = merge_all(c, bs);
    assert forall|i: int| 0 <= i < ws.len() implies window_cached(m, (#[trigger] ws[i]).0) by {
        let w = ws[i];
        assert(holds_window(m, bs[i].start, bs[i].end));
        lemma_holds_window_found(m, hm_text(w.0), hm_text(w.1));
        assert(later_by_half_hour(w.0, w.1) && first_covering(m, hm_text(w.0), hm_text(w.1)) is Some);
    }
    assert forall|k: int|
        0 <= k < s.len() && awaits_summary(#[trigger] s[k], current, c) implies exists|i: int|
        0 <= i < ws.len() && (#[trigger] ws[i]).0.same_instant(spec_bucket_start(s[k].timestamp))
            && window_cached(m, ws[i].0) by {
        let i = choose|i: int|
            0 <= i < ws.len() && (#[trigger] ws[i]).0.same_instant(spec_bucket_start(s[k].timestamp));
        assert(window_cached(m, ws[i].0));
    }
    if one_zone(s) {
        assert forall|k: int|
            0 <= k < s.len() && awaits_summary(#[trigger] s[k], current, c) implies window_cached(
            m,
            spec_bucket_start(s[k].timestamp),
        ) by {
            let i = choose|i: int|
                0 <= i < ws.len() && (#[trigger] ws[i]).0.same_instant(spec_bucket_start(s[k].timestamp));
            assert(window_cached(m, ws[i].0));
            let j = choose|j: int| 0 <= j < s.len() && spec_bucket_start(#[trigger] s[j].timestamp) == ws[i].0;
            assert(spec_bucket_start(s[j].timestamp).same_instant(spec_bucket_start(s[k].timestamp)));
        }
    }
}

proof fn lemma_no_clear_records(s: Seq<LogEntryView>)
    requires
        !has_clear_record(s),
    ensures
        clear_records(s).len() == 0,
    decreases s.len(),
{
    if s.len() > 0 {
        assert(!has_clear_record(s.drop_last())) by {
            if has_clear_record(s.drop_last()) {
                let k = choose|k: int| 0 <= k < s.drop_last().len() && (#[trigger] s.drop_last()[k]).error is None;
                assert(s[k] == s.drop_last()[k]);
            }
        }
        lemma_no_clear_records(s.drop_last());
        assert(s[s.len() - 1].error is Some);
    }
}

/// Failed recognitions never make a day drift: the local rules judge a day whose records
/// all failed as having too little data.
pub proof fn lemma_failed_day_is_no_drift(s: Seq<LogEntryView>, blocks: Seq<SummaryTimeBlockView>)
    requires
        s.len() > 0,
        !has_clear_record(s),
    ensures
        spec_fallback_daily(s, blocks).project_alignment.assessment
            == SummaryAssessment::InsufficientData,
{
    lemma_no_clear_records(s);
}

/// The blocks written for the completed windows, in order: each window's summary over the
/// records of its half hour, with the agent's answer for it.
pub open spec fn completed_blocks(
    enabled: bool,
    s: Seq<LogEntryView>,
    ws: Seq<(LocalTime, LocalTime)>,
    answers: Seq<Result<Option<SummaryTimeBlock>, String>>,
) -> Seq<SummaryTimeBlockView> {
    Seq::new(
        ws.len(),
        |i: int|
            spec_window_summary(
                enabled,
                ws[i].0,
                ws[i].1,
                entries_of_bucket(s, ws[i].0),
                agent_block_view(answers[i]),
            ),
    )
}

/// Summarizes the completed windows that `completed_windows` found for the day's records
/// at `now`, one after the other with the agent's answer for each, and writes each block
/// into the cache. Every record of an earlier, uncached half hour then has a cached block
/// for the window that starts at the same instant (for its own half hour when the records
/// come from one time zone); every written block belongs to a window that began before the
/// current half hour did; and every cached block of an untouched window is kept as often
/// as before.
pub fn fill_completed_windows(
    config: &AppConfig,
    cached: Vec<SummaryTimeBlock>,
    entries: &Vec<LogEntry>,
    now: LocalTime,
    windows: &Vec<(LocalTime, LocalTime)>,
    answers: Vec<Result<Option<SummaryTimeBlock>, String>>,
) -> (filled: Vec<SummaryTimeBlock>)
    requires
        answers.len() == windows.len(),
        now.wf(),
        timestamps_wf(entries.deep_view()),
        entries.len() <= usize::MAX / 100,
        forall|i: int|
            0 <= i < windows.len() ==> pending_window(
                #[trigger] windows[i],
                entries.deep_view(),
                entries.len() as int,
                spec_bucket_start(now),
                cached.deep_view(),
            ),
        forall|k: int|
            0 <= k < entries.len() && awaits_summary(
                #[trigger] entries.deep_view()[k],
                spec_bucket_start(now),
                cached.deep_view(),
            ) ==> exists|i: int|
                0 <= i < windows.len() && (#[trigger] windows[i]).0.same_instant(
                    spec_bucket_start(entries.deep_view()[k].timestamp),
                ),
    ensures
        ({
            let s = entries.deep_view();
            let c = cached.deep_view();
            let bs = completed_blocks(config.summary_enabled, s, windows@, answers@);
            &&& filled.deep_view() == merge_all(c, bs)
            &&& forall|k: int|
                0 <= k < s.len() && awaits_summary(#[trigger] s[k], spec_bucket_start(now), c)
                    ==> exists|i: int|
                    0 <= i < windows.len() && (#[trigger] windows[i]).0.same_instant(
                        spec_bucket_start(s[k].timestamp),
                    ) && window_cached(filled.deep_view(), windows[i].0)
            &&& one_zone(s) ==> forall|k: int|
                0 <= k < s.len() && awaits_summary(#[trigger] s[k], spec_bucket_start(now), c)
                    ==> window_cached(filled.deep_view(), spec_bucket_start(s[k].timestamp))
            &&& forall|i: int|
                0 <= i < bs.len() ==> (#[trigger] bs[i]).start == hm_text(windows[i].0)
                    && windows[i].0.spec_earlier(spec_bucket_start(now))
            &&& forall|x: SummaryTimeBlockView|
                (forall|i: int| 0 <= i < bs.len() ==> !covers(x, (#[trigger] bs[i]).start, bs[i].end))
                    ==> filled.deep_view().to_multiset().count(x) == c.to_multiset().count(x)
        }),
{
    let ghost s = entries.deep_view();
    let ghost c = cached.deep_view();
    let ghost ws = windows@;
    let ghost all = answers@;
    let ghost bs = completed_blocks(config.summary_enabled, s, ws, all);
    let current = bucket_start(now);
    let mut cache = cached;
    let mut rest = answers;
    let mut i: usize = 0;
    assert(bs.take(0) =~= Seq::<SummaryTimeBlockView>::empty());
    while i < windows.len()
        invariant
            s == entries.deep_view(),
            ws == windows@,
            bs == completed_blocks(config.summary_enabled, s, ws, all),
            all.len() == ws.len(),
            i <= windows.len(),
            rest@ == all.skip(i as int),
            cache.deep_view() == merge_all(c, bs.take(i as int)),
            timestamps_wf(s),
            entries.len() <= usize::MAX / 100,
            current == spec_bucket_start(now),
            current.wf(),
            current.on_half_hour(),
            forall|j: int|
                0 <= j < windows.len() ==> pending_window(
                    #[trigger] windows[j],
                    s,
                    s.len() as int,
                    current,
                    c,
                ),
        decreases windows.len() - i,
    {
        let (start, end) = windows[i];
        assert(pending_window(windows[i as int], s, s.len() as int, current, c));
        assert(rest@[0] == all[i as int]);
        let answer = rest.remove(0);
        assert(rest@ =~= all.skip(i + 1));
        let group = entries_in_bucket(entries, start);
        let block = summarize_window(config, start, end, &group, answer);
        assert(block@ == bs[i as int]);
        cache = merge_block(cache, &block);
        i = i + 1;
        assert(bs.take(i as int).drop_last() =~= bs.take(i - 1));
    }
    assert(bs.take(i as int) =~= bs);
    proof {
        assert forall|j: int| 0 <= j < ws.len() implies later_by_half_hour((#[trigger] ws[j]).0, ws[j].1)
            && bs[j].start == hm_text(ws[j].0) && bs[j].end == hm_text(ws[j].1) by {
            assert(pending_window(windows[j], s, s.len() as int, current, c));
        }
        assert forall|j: int| 0 <= j < ws.len() implies exists|k: int|
            0 <= k < s.len() && spec_bucket_start(#[trigger] s[k].timestamp) == (#[trigger] ws[j]).0 by {
            assert(pending_window(windows[j], s, s.len() as int, current, c));
        }
        lemma_completed_windows_cached(s, current, c, ws, bs, arbitrary());
        assert forall|x: SummaryTimeBlockView|
            (forall|j: int| 0 <= j < bs.len() ==> !covers(x, (#[trigger] bs[j]).start, bs[j].end)) implies
            cache.deep_view().to_multiset().count(x) == c.to_multiset().count(x) by {
            lemma_completed_windows_cached(s, current, c, ws, bs, x);
        }
        assert forall|j: int| 0 <= j < bs.len() implies (#[trigger] bs[j]).start == hm_text(windows[j].0)
            && windows[j].0.spec_earlier(spec_bucket_start(now)) by {
            assert(pending_window(windows[j], s, s.len() as int, current, c));
        }
    }
    cache
}

// ---------------------------------------------------------------------------
// Laws of the window blocks, the drifts and the report
// ---------------------------------------------------------------------------

/// A window with records is on the project exactly when at least 60 % of its records are,
/// and off the project exactly when its share rounds down to 0 % and some record was
/// recognised without an error; otherwise it is uncertain, never without data.
pub proof fn lemma_fallback_status_threshold(
    start: LocalTime,
    end: LocalTime,
    s: Seq<LogEntryView>,
    error: Option<Seq<char>>,
)
    requires
        s.len() > 0,
    ensures
        (spec_fallback_block(start, end, s, error).status == SummaryBlockStatus::OnProject) <==> (
        count_on_project(s) * 100 >= 60 * s.len()),
        (spec_fallback_block(start, end, s, error).status == SummaryBlockStatus::OffProject) <==> (
        count_on_project(s) * 100 < s.len() && has_clear_record(s)),
        spec_fallback_block(start, end, s, error).status != SummaryBlockStatus::InsufficientData,
        spec_fallback_block(start, end, s, error).on_project_ratio as int == (count_on_project(s)
            * 100) as int / (s.len() as int),
{
    lemma_ratio_at_most_100(s);
    let c = count_on_project(s) as int;
    let n = s.len() as int;
    let q = (c * 100) / n;
    assert(q * n <= c * 100 && c * 100 < q * n + n) by (nonlinear_arith)
        requires
            n > 0,
            c >= 0,
            q == (c * 100) / n,
    ;
    assert(q >= 60 <==> c * 100 >= 60 * n) by (nonlinear_arith)
        requires
            n > 0,
            q * n <= c * 100,
            c * 100 < q * n + n,
    ;
    assert(q == 0 <==> c * 100 < n) by (nonlinear_arith)
        requires
            n > 0,
            q * n <= c * 100,
            c * 100 < q * n + n,
            q >= 0,
    ;
}

/// When summaries are on and the agent gives a block for a window, the window's block is
/// the agent's: its status, summary, evidence and error are the agent's, and only the
/// window, the record count and the on-project share are taken from the records. This
/// holds for the completed windows, and for the previous half hour when it has records.
pub proof fn lemma_agent_block_kept(
    start: LocalTime,
    end: LocalTime,
    s: Seq<LogEntryView>,
    b: SummaryTimeBlockView,
)
    requires
        s.len() <= usize::MAX,
    ensures
        ({
            let w = spec_window_summary(true, start, end, s, Ok(Some(b)));
            &&& w.status == b.status
            &&& w.summary == b.summary
            &&& w.evidence == b.evidence
            &&& w.error == b.error
            &&& w.start == hm_text(start)
            &&& w.end == hm_text(end)
            &&& w.record_count == s.len()
            &&& w.on_project_ratio == spec_on_project_ratio(s)
        }),
        s.len() > 0 ==> spec_window_block(true, start, end, s, Ok(Some(b))) == spec_window_summary(
            true,
            start,
            end,
            s,
            Ok(Some(b)),
        ),
{
}

/// The block written for the `i`-th completed window is built from that window's own
/// answer and its own records: it covers the window and counts the records of its half
/// hour; with summaries on, an agent's block keeps its status, summary, evidence and
/// error, and an agent's failure is noted as the block's error; otherwise the block has
/// no error.
pub proof fn lemma_completed_block_own_answer(
    enabled: bool,
    s: Seq<LogEntryView>,
    ws: Seq<(LocalTime, LocalTime)>,
    answers: Seq<Result<Option<SummaryTimeBlock>, String>>,
    i: int,
)
    requires
        0 <= i < ws.len(),
        answers.len() == ws.len(),
        s.len() <= usize::MAX,
    ensures
        ({
            let bs = completed_blocks(enabled, s, ws, answers);
            let own = entries_of_bucket(s, ws[i].0);
            &&& bs.len() == ws.len()
            &&& bs[i].start == hm_text(ws[i].0)
            &&& bs[i].end == hm_text(ws[i].1)
            &&& bs[i].record_count == own.len()
            &&& enabled && answers[i] is Ok && answers[i]->Ok_0 is Some ==> {
                let b = answers[i]->Ok_0->Some_0@;
                &&& bs[i].status == b.status
                &&& bs[i].summary == b.summary
                &&& bs[i].evidence == b.evidence
                &&& bs[i].error == b.error
            }
            &&& enabled && answers[i] is Err ==> bs[i].error == Some(answers[i]->Err_0@)
            &&& !enabled || answers[i] == Ok::<Option<SummaryTimeBlock>, String>(None) ==> bs[i].error
                is None
        }),
{
    lemma_entries_of_bucket_len(s, ws[i].0);
}

proof fn lemma_entries_of_bucket_len(s: Seq<LogEntryView>, start: LocalTime)
    ensures
        entries_of_bucket(s, start).len() <= s.len(),
    decreases s.len(),
{
    if s.len() > 0 {
        lemma_entries_of_bucket_len(s.drop_last(), start);
    }
}

/// The notable drifts are exactly the windows that strayed from the project, in order:
/// one drift for each off-project block, none for any other, each naming the window's
/// time and summary.
pub proof fn lemma_drifts_are_off_project_windows(bs: Seq<SummaryTimeBlockView>)
    ensures
        drifts_of(bs) == bs.filter_map(
            |b: SummaryTimeBlockView|
                if b.status == SummaryBlockStatus::OffProject {
                    Some(NotableDriftView { time: b.start + " - "@ + b.end, reason: b.summary })
                } else {
                    None
                },
        ),
    decreases bs.len(),
{
    if bs.len() > 0 {
        lemma_drifts_are_off_project_windows(bs.drop_last());
    }
}

proof fn lemma_blocks_lines_append(a: Seq<SummaryTimeBlockView>, b: Seq<SummaryTimeBlockView>)
    ensures
        blocks_lines(a + b) == blocks_lines(a) + blocks_lines(b),
    decreases b.len(),
{
    if b.len() == 0 {
        assert(a + b =~= a);
        assert(blocks_lines(a) + blocks_lines(b) =~= blocks_lines(a));
    } else {
        lemma_blocks_lines_append(a, b.drop_last());
        assert((a + b).drop_last() =~= a + b.drop_last());
        assert((a + b).last() == b.last());
        assert(blocks_lines(a + b) =~= blocks_lines(a) + blocks_lines(b));
    }
}

/// The daily report lists every window, in order: the line of the `i`-th time block
/// stands right after the report's head and the lines of the blocks before it.
#[verifier::spinoff_prover]
#[verifier::rlimit(80)]
pub proof fn lemma_report_lists_every_window(
    today: CivilDate,
    s: Seq<LogEntryView>,
    r: SummaryAgentResultView,
    i: int,
)
    requires
        0 <= i < r.time_blocks.len(),
    ensures
        ({
            let md = spec_summary_markdown(today, s, r);
            let line = block_lines(r.time_blocks[i]);
            let at = report_head(today, s, r).len() as int + blocks_lines(r.time_blocks.take(i)).len() as int;
            &&& at + line.len() <= md.len()
            &&& md.subrange(at, at + line.len() as int) == line
        }),
{
    let bs = r.time_blocks;
    let before = bs.take(i);
    let one = seq![bs[i]];
    let after = bs.skip(i + 1);
    assert(bs =~= before + one + after);
    lemma_blocks_lines_append(before + one, after);
    lemma_blocks_lines_append(before, one);
    let none = Seq::<SummaryTimeBlockView>::empty();
    assert(one.drop_last() =~= none);
    assert(one.last() == bs[i]);
    assert(blocks_lines(none) == Seq::<char>::empty());
    assert(blocks_lines(one) == blocks_lines(none) + block_lines(bs[i]));
    assert(blocks_lines(one) =~= block_lines(bs[i]));
    let head = report_head(today, s, r);
    let line = block_lines(bs[i]);
    let md = spec_summary_markdown(today, s, r);
    let sec = blocks_lines(bs);
    assert(sec == blocks_lines(before) + line + blocks_lines(after));
    let at = head.len() as int + blocks_lines(before).len() as int;
    let p = head.len() as int + sec.len() as int;
    lemma_prefix_parts(today, s, r);
    assert(md.subrange(0, p) =~= head + sec);
    assert(md.subrange(at, at + line.len() as int) =~= md.subrange(0, p).subrange(
        at,
        at + line.len() as int,
    ));
    assert((head + sec).subrange(at, at + line.len() as int) =~= line);
}

proof fn lemma_prefix_parts(today: CivilDate, s: Seq<LogEntryView>, r: SummaryAgentResultView)
    requires
        r.time_blocks.len() > 0,
    ensures
        ({
            let md = spec_summary_markdown(today, s, r);
            let pre = report_head(today, s, r) + blocks_lines(r.time_blocks);
            &&& pre.len() <= md.len()
            &&& md == pre + md.skip(pre.len() as int)
        }),
{
    let md = spec_summary_markdown(today, s, r);
    let pre = report_head(today, s, r) + blocks_lines(r.time_blocks);
    let d = if r.notable_drifts.len() > 0 {
        "\n## 明显偏离或不确定片段\n\n"@ + drift_lines(r.notable_drifts)
    } else {
        Seq::empty()
    };
    let rest = d + "\n## 复盘问题\n\n"@ + prompt_lines(r.reflection_prompts)
        + "\n> 由 AI 总结生成，基于本地监督日志；请以原始记录为准。\n"@ + unavailable_note(r.error);
    assert(md =~= pre + rest);
    assert(md.skip(pre.len() as int) =~= rest);
}

} // verus!
