//! The transport and service-tier signals of the Codex log: reconnects, retries and transport
//! errors, and the service tiers the log speaks of, per bucket of the dashboard's range.
use crate::activity::{bucket_label, bucket_label_of, bucket_start, bucket_start_of};
use crate::chars::{ascii_lower, chars_of, contains, contains_str, lower_str};
use crate::counts::LabelCounts;
use crate::event_pass::{bump, bump_timeline};
use crate::projects::timeline_within;
use crate::terms::bounded;
use crate::text::{lemma_transport_error_levels, warn_or_error_level, extract_cwd_from_log, is_transport_error, is_transport_target, log_cwd, parse_service_tier, service_tier, transport_error, transport_target};
use crate::timeline::{bucket_counts, count_in, increment_breakdown, Timeline};
use crate::turns::ScopeDays;
use crate::workspace::{matches_project_filter, project_matches};
use vstd::prelude::*;

verus! {

/// A line of the log: the local day of its timestamp (none where the timestamp is not a
/// valid instant), its level, its target and its body.
#[derive(Debug)]
pub struct LogRow {
    pub day: Option<i64>,
    pub level: String,
    pub target: String,
    pub body: String,
}

/// The signals of the log, as plain values.
pub struct LogView {
    pub signals: Map<Seq<char>, i64>,
    pub transport: Map<Seq<char>, Map<Seq<char>, i64>>,
    pub tiers: Map<Seq<char>, i64>,
    pub speed: Map<Seq<char>, Map<Seq<char>, i64>>,
}

/// A signal counted once more, in total and in its bucket.
pub open spec fn signal(s: LogView, bucket: Seq<char>, label: Seq<char>) -> LogView {
    LogView { signals: bump(s.signals, label), transport: bump_timeline(s.transport, bucket, label), ..s }
}

/// The signals once a line is counted: lines outside the range, or of another workspace than
/// the selected project, count for nothing; a transport line that speaks of reconnecting or
/// retrying counts as such, a transport error as one, and a service tier the line speaks of
/// as one more line of that tier.
pub open spec fn log_step(s: LogView, row: LogRow, scope: ScopeDays, selected: Option<Seq<char>>) -> LogView {
    match row.day {
        None => s,
        Some(d) => if !(scope.start <= d && d <= scope.end) {
            s
        } else if selected is Some && !project_matches(log_cwd(row.body@), selected) {
            s
        } else {
            let b = bucket_label_of(bucket_start_of(d, scope.granularity), scope.granularity);
            let lt = ascii_lower(row.target@);
            let lb = ascii_lower(row.body@);
            let s1 = if transport_target(lt) && contains(lb, "reconnect"@) {
                signal(s, b, "Reconnect"@)
            } else {
                s
            };
            let s2 = if transport_target(lt) && contains(lb, "retry"@) {
                signal(s1, b, "Retry"@)
            } else {
                s1
            };
            let s3 = if transport_error(lt, row.level@, lb) {
                signal(s2, b, "Transport error"@)
            } else {
                s2
            };
            match service_tier(lb) {
                Some(t) => LogView { tiers: bump(s3.tiers, t), speed: bump_timeline(s3.speed, b, t), ..s3 },
                None => s3,
            }
        },
    }
}

/// A log line counts only when its day lies in the range; and a warning or error line of a
/// transport target in range, with no project selected, counts once more as a transport error,
/// whatever its body says and whatever the case of its target and level.
pub proof fn lemma_log_line_signals(s: LogView, row: LogRow, scope: ScopeDays, selected: Option<Seq<char>>)
    ensures
        match row.day {
            None => log_step(s, row, scope, selected) == s,
            Some(d) => {
                &&& !(scope.start <= d && d <= scope.end) ==> log_step(s, row, scope, selected) == s
                &&& (scope.start <= d && d <= scope.end && selected is None && transport_target(
                    ascii_lower(row.target@),
                ) && warn_or_error_level(row.level@) && count_in(s.signals, "Transport error"@) < i64::MAX)
                    ==> count_in(log_step(s, row, scope, selected).signals, "Transport error"@) == count_in(
                    s.signals,
                    "Transport error"@,
                ) + 1
            },
        },
{
    reveal_strlit("Transport error");
    reveal_strlit("Reconnect");
    reveal_strlit("Retry");
    assert("Transport error"@.len() != "Reconnect"@.len());
    assert("Transport error"@.len() != "Retry"@.len());
    lemma_transport_error_levels(ascii_lower(row.target@), row.level@, ascii_lower(row.body@));
}

/// The signals of the lines, counted in the order given.
pub open spec fn log_folded(rows: Seq<LogRow>, scope: ScopeDays, selected: Option<Seq<char>>) -> LogView
    decreases rows.len(),
{
    if rows.len() == 0 {
        LogView { signals: Map::empty(), transport: Map::empty(), tiers: Map::empty(), speed: Map::empty() }
    } else {
        log_step(log_folded(rows.drop_last(), scope, selected), rows.last(), scope, selected)
    }
}

/// Whether every count of the signals is at most `n`.
pub open spec fn log_within(s: LogView, n: int) -> bool {
    &&& bounded(s.signals, n)
    &&& bounded(s.tiers, n)
    &&& timeline_within(s.transport, n)
    &&& timeline_within(s.speed, n)
}

/// The signals of the log.
pub struct LogAnalytics {
    /// Reconnects, retries and transport errors.
    pub signals: LabelCounts,
    /// The same per bucket.
    pub transport_timeline: Timeline,
    /// The lines per service tier.
    pub speed_tiers: LabelCounts,
    /// The same per bucket.
    pub speed_timeline: Timeline,
}

impl LogAnalytics {
    /// The signals as plain values.
    pub open spec fn view(&self) -> LogView {
        LogView {
            signals: self.signals@,
            transport: self.transport_timeline.as_map(),
            tiers: self.speed_tiers@,
            speed: self.speed_timeline.as_map(),
        }
    }
}

proof fn lemma_bump_within(m: Map<Seq<char>, i64>, k: Seq<char>, n: int)
    requires
        bounded(m, n),
        0 <= n,
        count_in(m, k) + 1 <= i64::MAX,
    ensures
        bounded(bump(m, k), n + 1),
{
}

proof fn lemma_timeline_within(m: Map<Seq<char>, Map<Seq<char>, i64>>, b: Seq<char>, c: Seq<char>, n: int)
    requires
        timeline_within(m, n),
        0 <= n,
        n + 1 <= i64::MAX,
    ensures
        timeline_within(bump_timeline(m, b, c), n + 1),
        bounded(bucket_counts(m, b), n),
{
    let r = bump_timeline(m, b, c);
    assert forall|x: Seq<char>| r.contains_key(x) implies bounded(#[trigger] r[x], n + 1) by {
        if x != b {
            assert(bounded(m[x], n));
        }
    }
}

proof fn lemma_within_more(s: LogView, n: int, m: int)
    requires
        log_within(s, n),
        n <= m,
    ensures
        log_within(s, m),
{
    assert forall|x: Seq<char>| s.transport.contains_key(x) implies bounded(#[trigger] s.transport[x], m) by {
        assert(bounded(s.transport[x], n));
    }
    assert forall|x: Seq<char>| s.speed.contains_key(x) implies bounded(#[trigger] s.speed[x], m) by {
        assert(bounded(s.speed[x], n));
    }
}

proof fn lemma_within_grows(s: LogView, n: int)
    requires
        log_within(s, n),
    ensures
        log_within(s, n + 1),
{
    assert forall|x: Seq<char>| s.transport.contains_key(x) implies bounded(#[trigger] s.transport[x], n + 1) by {
        assert(bounded(s.transport[x], n));
    }
    assert forall|x: Seq<char>| s.speed.contains_key(x) implies bounded(#[trigger] s.speed[x], n + 1) by {
        assert(bounded(s.speed[x], n));
    }
}

fn count_signal(a: &mut LogAnalytics, bucket: &String, label: &str, n: Ghost<int>)
    requires
        log_within(old(a)@, n@),
        0 <= n@ < i64::MAX,
    ensures
        final(a)@ == signal(old(a)@, bucket@, label@),
        log_within(final(a)@, n@ + 1),
{
    proof {
        lemma_timeline_within(a@.transport, bucket@, label@, n@);
        lemma_within_grows(a@, n@);
    }
    a.signals.increment(label, 1);
    increment_breakdown(&mut a.transport_timeline, bucket.clone(), label, 1);
    proof {
        lemma_bump_within(old(a)@.signals, label@, n@);
        lemma_timeline_within(old(a)@.transport, bucket@, label@, n@);
    }
}

/// The signals of the log lines, counted in the order given, for the lines whose day lies in
/// the range and, where a project is selected, whose body names a workspace of that project.
pub fn build_log_analytics(rows: &[LogRow], scope: &ScopeDays, selected: Option<&str>) -> (r: LogAnalytics)
    requires
        rows@.len() < i64::MAX / 4,
    ensures
        r@ == log_folded(
            rows@,
            *scope,
            match selected {
                Some(p) => Some(p@),
                None => None,
            },
        ),
{
    let ghost sel = match selected {
        Some(p) => Some(p@),
        None => None,
    };
    let mut a = LogAnalytics {
        signals: LabelCounts::new(),
        transport_timeline: Timeline::new(),
        speed_tiers: LabelCounts::new(),
        speed_timeline: Timeline::new(),
    };
    let mut i: usize = 0;
    while i < rows.len()
        invariant
            i <= rows@.len() < i64::MAX / 4,
            sel == match selected {
                Some(p) => Some(p@),
                None => None::<Seq<char>>,
            },
            a@ == log_folded(rows@.take(i as int), *scope, sel),
            log_within(a@, 4 * i),
        decreases rows.len() - i,
    {
        proof {
            assert(rows@.take(i as int + 1).drop_last() == rows@.take(i as int));
            assert(rows@.take(i as int + 1).last() == rows@[i as int]);
        }
        let row = &rows[i];
        let ghost s0 = a@;
        let ghost n = 4 * i as int;
        match row.day {
            None => {
                proof {
                    lemma_within_more(a@, n, n + 4);
                }
            },
            Some(d) => {
                let in_scope = scope.contains_date(d);
                let wanted = match selected {
                    Some(p) => {
                        let cwd = extract_cwd_from_log(row.body.as_str());
                        let c: Option<&str> = match &cwd {
                            Some(c) => Some(c.as_str()),
                            None => None,
                        };
                        matches_project_filter(c, Some(p))
                    },
                    None => true,
                };
                if !in_scope || !wanted {
                    proof {
                        lemma_within_more(a@, n, n + 4);
                    }
                } else {
                    let bucket = bucket_label(bucket_start(d, scope.granularity), scope.granularity);
                    let lt = lower_str(row.target.as_str());
                    let lb = lower_str(row.body.as_str());
                    let lbv = chars_of(lb.as_str());
                    let transport = is_transport_target(lt.as_str());
                    let ghost s1 = if transport && contains(lb@, "reconnect"@) {
                        signal(s0, bucket@, "Reconnect"@)
                    } else {
                        s0
                    };
                    if transport && contains_str(lbv.as_slice(), "reconnect") {
                        count_signal(&mut a, &bucket, "Reconnect", Ghost(n));
                    } else {
                        proof {
                            lemma_within_grows(a@, n);
                        }
                    }
                    assert(a@ == s1);
                    let ghost s2 = if transport && contains(lb@, "retry"@) {
                        signal(s1, bucket@, "Retry"@)
                    } else {
                        s1
                    };
                    if transport && contains_str(lbv.as_slice(), "retry") {
                        count_signal(&mut a, &bucket, "Retry", Ghost(n + 1));
                    } else {
                        proof {
                            lemma_within_grows(a@, n + 1);
                        }
                    }
                    assert(a@ == s2);
                    let ghost s3 = if transport_error(lt@, row.level@, lb@) {
                        signal(s2, bucket@, "Transport error"@)
                    } else {
                        s2
                    };
                    if is_transport_error(lt.as_str(), row.level.as_str(), lb.as_str()) {
                        count_signal(&mut a, &bucket, "Transport error", Ghost(n + 2));
                    } else {
                        proof {
                            lemma_within_grows(a@, n + 2);
                        }
                    }
                    assert(a@ == s3);
                    match parse_service_tier(lb.as_str()) {
                        Some(t) => {
                            proof {
                                lemma_timeline_within(a@.speed, bucket@, t@, n + 3);
                                lemma_within_grows(a@, n + 3);
                            }
                            let ghost before = a@;
                            a.speed_tiers.increment(t.as_str(), 1);
                            increment_breakdown(&mut a.speed_timeline, bucket.clone(), t.as_str(), 1);
                            proof {
                                lemma_bump_within(before.tiers, t@, n + 3);
                                lemma_timeline_within(before.speed, bucket@, t@, n + 3);
                            }
                        },
                        None => {
                            proof {
                                lemma_within_grows(a@, n + 3);
                            }
                        },
                    }
                }
            },
        }
        i += 1;
    }
    proof {
        assert(rows@.take(rows@.len() as int) == rows@);
    }
    a
}

} // verus!
