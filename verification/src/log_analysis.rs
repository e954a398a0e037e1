//! What the logs of the bot say: errors, warnings, cancellations and losses.
use vstd::prelude::*;

use crate::analyzer::{capped, errors, pair, push_error, ErrorLog, ErrorView, ERROR_LOG};
use crate::arith::{average_before, average_opt};
use crate::decimal::{dec_of, Dec};
use crate::figures::{money, money_text, Rate};
use crate::initialization::texts;
use crate::json::{read_text, text_at, Json};
use crate::log_lines::{
    extract_symbol_from_log, lines_of, parse_log_line, parsed_line, split_lines, symbol_in,
};
use crate::text::{contains_text, copy_of, glue3, glue5, joined, nat_text, occurs_in, same_text, u64_text};

verus! {

/// How many of the last events are looked at.
pub const RECENT_EVENTS: usize = 1000;

/// A line that reports an error.
pub open spec fn is_error_line(line: Seq<char>) -> bool {
    occurs_in(line, " ERROR "@) || occurs_in(line, "\tERROR\t"@)
}

/// A line that reports a warning.
pub open spec fn is_warning_line(line: Seq<char>) -> bool {
    !is_error_line(line) && (occurs_in(line, " WARN "@) || occurs_in(line, "\tWARN\t"@))
}

/// The lines that report errors.
pub open spec fn error_lines(lines: Seq<Seq<char>>) -> Seq<Seq<char>>
    decreases lines.len(),
{
    if lines.len() == 0 {
        Seq::empty()
    } else {
        let head = error_lines(lines.drop_last());
        if is_error_line(lines.last()) {
            head.push(lines.last())
        } else {
            head
        }
    }
}

/// The lines that report warnings.
pub open spec fn warning_lines(lines: Seq<Seq<char>>) -> Seq<Seq<char>>
    decreases lines.len(),
{
    if lines.len() == 0 {
        Seq::empty()
    } else {
        let head = warning_lines(lines.drop_last());
        if is_warning_line(lines.last()) {
            head.push(lines.last())
        } else {
            head
        }
    }
}

/// The error that a line reports.
pub open spec fn line_error(line: Seq<char>, now_ms: u64) -> ErrorView {
    ErrorView {
        timestamp: now_ms,
        error_type: "log_error"@,
        module: parsed_line(line).0,
        symbol: symbol_in(line),
        message: parsed_line(line).1,
        context: seq![("log_line"@, line)],
    }
}

/// The errors that lines report.
pub open spec fn line_errors(lines: Seq<Seq<char>>, now_ms: u64) -> Seq<ErrorView> {
    Seq::new(error_lines(lines).len(), |i: int| line_error(error_lines(lines)[i], now_ms))
}

/// The first three of the lines, with semicolons between them.
pub open spec fn sample(lines: Seq<Seq<char>>) -> Seq<char> {
    if lines.len() == 0 {
        ""@
    } else if lines.len() == 1 {
        lines[0]
    } else if lines.len() == 2 {
        lines[0] + "; "@ + lines[1]
    } else {
        lines[0] + "; "@ + lines[1] + "; "@ + lines[2]
    }
}

fn sample_text(lines: &Vec<String>) -> (r: String)
    ensures
        r@ == sample(texts(lines@)),
{
    let n: usize = lines.len();
    if n == 0 {
        copy_of("")
    } else if n == 1 {
        copy_of(lines[0].as_str())
    } else if n == 2 {
        glue3(lines[0].as_str(), "; ", lines[1].as_str())
    } else {
        glue5(lines[0].as_str(), "; ", lines[1].as_str(), "; ", lines[2].as_str())
    }
}

/// The report of many errors.
pub open spec fn error_rate_report(bad: Seq<Seq<char>>, warned: Seq<Seq<char>>, now_ms: u64) ->
    ErrorView {
    ErrorView {
        timestamp: now_ms,
        error_type: "high_error_rate"@,
        module: "SYSTEM"@,
        symbol: None,
        message: "High error rate detected: "@ + nat_text(bad.len()) + " errors, "@ + nat_text(
            warned.len(),
        ) + " warnings in recent logs"@,
        context: seq![
            ("error_count"@, nat_text(bad.len())),
            ("warn_count"@, nat_text(warned.len())),
            ("sample_errors"@, sample(bad)),
        ],
    }
}

/// The report of many warnings.
pub open spec fn warning_rate_report(warned: Seq<Seq<char>>, now_ms: u64) -> ErrorView {
    ErrorView {
        timestamp: now_ms,
        error_type: "high_warning_rate"@,
        module: "SYSTEM"@,
        symbol: None,
        message: "High warning rate detected: "@ + nat_text(warned.len())
            + " warnings in recent logs"@,
        context: seq![
            ("warn_count"@, nat_text(warned.len())),
            ("sample_warnings"@, sample(warned)),
        ],
    }
}

/// The last entries of a list, and not more than are remembered.
pub open spec fn last_errors(list: Seq<ErrorView>) -> Seq<ErrorView> {
    if list.len() > ERROR_LOG {
        list.skip(list.len() - ERROR_LOG)
    } else {
        list
    }
}

/// What a console log adds: each error line, and a report where there are more than
/// ten of them, or more than fifty warnings and no error.
pub open spec fn console_errors(lines: Seq<Seq<char>>, now_ms: u64) -> Seq<ErrorView> {
    let bad = error_lines(lines);
    let warned = warning_lines(lines);
    let each = line_errors(lines, now_ms);
    if bad.len() > 10 {
        each.push(error_rate_report(bad, warned, now_ms))
    } else if warned.len() > 50 && bad.len() == 0 {
        each.push(warning_rate_report(warned, now_ms))
    } else {
        each
    }
}

fn error_of_line(line: &str, now_ms: u64) -> (r: ErrorLog)
    ensures
        r@ == line_error(line@, now_ms),
{
    let (module, message) = parse_log_line(line);
    let symbol = extract_symbol_from_log(line);
    let mut context: Vec<(String, String)> = Vec::new();
    context.push(pair("log_line", copy_of(line)));
    let r = ErrorLog {
        timestamp: now_ms,
        error_type: copy_of("log_error"),
        module,
        symbol,
        message,
        context,
    };
    assert(r@.symbol == symbol_in(line@));
    assert(r@ =~= line_error(line@, now_ms));
    r
}

/// Reads new lines of a console log into the errors.
pub fn analyze_console_log(content: &str, error_log: &mut Vec<ErrorLog>, now_ms: u64)
    ensures
        errors(final(error_log)@) == last_errors(
            errors(old(error_log)@) + console_errors(lines_of(content@), now_ms),
        ),
{
    let lines = split_lines(content);
    let mut bad: Vec<String> = Vec::new();
    let mut warned: Vec<String> = Vec::new();
    let ghost all = texts(lines@);
    let ghost start = errors(error_log@);
    let mut i: usize = 0;
    assert(all.take(0) =~= Seq::<Seq<char>>::empty());
    assert(texts(bad@) =~= error_lines(all.take(0)));
    assert(texts(warned@) =~= warning_lines(all.take(0)));
    assert(errors(error_log@) =~= start + line_errors(all.take(0), now_ms));
    while i < lines.len()
        invariant
            i <= lines.len(),
            all == texts(lines@),
            texts(bad@) == error_lines(all.take(i as int)),
            texts(warned@) == warning_lines(all.take(i as int)),
            errors(error_log@) == start + line_errors(all.take(i as int), now_ms),
        decreases lines.len() - i,
    {
        let line = lines[i].as_str();
        let ghost before = all.take(i as int);
        let ghost now = all.take(i as int + 1);
        let ghost log_before = errors(error_log@);
        let ghost bad_before = texts(bad@);
        let ghost warned_before = texts(warned@);
        proof {
            assert(now.drop_last() =~= before);
            assert(now.last() == line@);
        }
        if contains_text(line, " ERROR ") || contains_text(line, "\tERROR\t") {
            bad.push(copy_of(line));
            let entry = error_of_line(line, now_ms);
            error_log.push(entry);
            proof {
                assert(texts(bad@) =~= bad_before.push(line@));
                assert(errors(error_log@) =~= log_before.push(entry@));
                assert(line_errors(now, now_ms) =~= line_errors(before, now_ms).push(entry@));
                assert(start + line_errors(now, now_ms) =~= (start + line_errors(
                    before,
                    now_ms,
                )).push(entry@));
            }
        } else {
            proof {
                assert(line_errors(now, now_ms) =~= line_errors(before, now_ms));
            }
            if contains_text(line, " WARN ") || contains_text(line, "\tWARN\t") {
                warned.push(copy_of(line));
                assert(texts(warned@) =~= warned_before.push(line@));
            }
        }
        i += 1;
    }
    assert(all.take(all.len() as int) =~= all);
    let ghost each = line_errors(all, now_ms);
    assert(texts(bad@).len() == bad@.len());
    assert(texts(warned@).len() == warned@.len());
    let bad_count = u64_text(bad.len() as u64);
    let warned_count = u64_text(warned.len() as u64);
    if bad.len() > 10 {
        let head = glue5(
            "High error rate detected: ",
            bad_count.as_str(),
            " errors, ",
            warned_count.as_str(),
            " warnings in recent logs",
        );
        let mut context: Vec<(String, String)> = Vec::new();
        context.push(pair("error_count", bad_count));
        context.push(pair("warn_count", warned_count));
        context.push(pair("sample_errors", sample_text(&bad)));
        let entry = ErrorLog {
            timestamp: now_ms,
            error_type: copy_of("high_error_rate"),
            module: copy_of("SYSTEM"),
            symbol: None,
            message: head,
            context,
        };
        let ghost report = error_rate_report(error_lines(all), warning_lines(all), now_ms);
        assert(entry@.context =~= report.context);
        assert(entry@ =~= report);
        error_log.push(entry);
        assert(errors(error_log@) =~= (start + each).push(report));
        assert((start + each).push(report) =~= start + each.push(report));
    } else if warned.len() > 50 && bad.len() == 0 {
        let message = glue3(
            "High warning rate detected: ",
            warned_count.as_str(),
            " warnings in recent logs",
        );
        let mut context: Vec<(String, String)> = Vec::new();
        context.push(pair("warn_count", warned_count));
        context.push(pair("sample_warnings", sample_text(&warned)));
        let entry = ErrorLog {
            timestamp: now_ms,
            error_type: copy_of("high_warning_rate"),
            module: copy_of("SYSTEM"),
            symbol: None,
            message,
            context,
        };
        let ghost report = warning_rate_report(warning_lines(all), now_ms);
        assert(entry@.context =~= report.context);
        assert(entry@ =~= report);
        error_log.push(entry);
        assert(errors(error_log@) =~= (start + each).push(report));
        assert((start + each).push(report) =~= start + each.push(report));
    }
    if error_log.len() > ERROR_LOG {
        let ghost full = errors(error_log@);
        let cut: usize = error_log.len() - ERROR_LOG;
        let tail = error_log.split_off(cut);
        *error_log = tail;
        assert(errors(error_log@) =~= full.skip(cut as int));
    }
}

/// The last lines of a log of events, the newest first.
pub open spec fn newest_lines(lines: Seq<Seq<char>>) -> Seq<Seq<char>> {
    let n = if lines.len() < RECENT_EVENTS {
        lines.len()
    } else {
        RECENT_EVENTS as nat
    };
    Seq::new(n, |i: int| lines[lines.len() - 1 - i])
}

/// The last lines of a log of events, the newest first.
pub fn recent_lines(content: &str) -> (r: Vec<String>)
    ensures
        texts(r@) == newest_lines(lines_of(content@)),
{
    let lines = split_lines(content);
    let n: usize = lines.len();
    let count: usize = if n < RECENT_EVENTS {
        n
    } else {
        RECENT_EVENTS
    };
    let ghost all = texts(lines@);
    let mut v: Vec<String> = Vec::new();
    let mut i: usize = 0;
    assert(texts(v@) =~= newest_lines(all).take(0));
    while i < count
        invariant
            i <= count <= n,
            n == lines@.len(),
            all == texts(lines@),
            count == newest_lines(all).len(),
            texts(v@) == newest_lines(all).take(i as int),
        decreases count - i,
    {
        let ghost before = texts(v@);
        v.push(copy_of(lines[n - 1 - i].as_str()));
        proof {
            assert(texts(v@) =~= before.push(all[n - 1 - i]));
            assert(newest_lines(all).take(i as int + 1) =~= newest_lines(all).take(i as int).push(
                newest_lines(all)[i as int],
            ));
        }
        i += 1;
    }
    assert(newest_lines(all).take(count as int) =~= newest_lines(all));
    v
}

/// An event is of this kind.
pub open spec fn is_event(e: Option<Json>, kind: Seq<char>) -> bool {
    e matches Some(v) && text_at(v, "event_type"@) == Some(kind)
}

fn read_is_event(e: &Option<Json>, kind: &str) -> (r: bool)
    ensures
        r == is_event(*e, kind@),
{
    match e {
        Some(v) => match read_text(v, "event_type") {
            Some(t) => same_text(t, kind),
            None => false,
        },
        None => false,
    }
}

/// How many events are of this kind.
pub open spec fn count_events(events: Seq<Option<Json>>, kind: Seq<char>) -> nat
    decreases events.len(),
{
    if events.len() == 0 {
        0
    } else {
        count_events(events.drop_last(), kind) + if is_event(events.last(), kind) {
            1nat
        } else {
            0
        }
    }
}

/// The result that an update of a position tells.
pub open spec fn told_result(e: Option<Json>) -> Option<Dec> {
    if is_event(e, "position_updated"@) {
        match e->0.field("unrealized_pnl"@) {
            Some(v) => v.decimal(),
            None => None,
        }
    } else {
        None
    }
}

/// The results that the updates of positions tell.
pub open spec fn told_results(events: Seq<Option<Json>>) -> Seq<Dec>
    decreases events.len(),
{
    if events.len() == 0 {
        Seq::empty()
    } else {
        let head = told_results(events.drop_last());
        match told_result(events.last()) {
            Some(d) => head.push(d),
            None => head,
        }
    }
}

/// The smallest of some numbers.
pub open spec fn least(list: Seq<Dec>) -> Dec
    decreases list.len(),
{
    if list.len() <= 1 {
        list[0]
    } else {
        let before = least(list.drop_last());
        if list.last()@ < before@ {
            list.last()
        } else {
            before
        }
    }
}

fn find_least(list: &Vec<Dec>) -> (r: Dec)
    requires
        list@.len() > 0,
    ensures
        r == least(list@),
{
    let mut r = list[0];
    let mut i: usize = 1;
    assert(list@.take(1)[0] == list@[0]);
    while i < list.len()
        invariant
            1 <= i <= list.len(),
            r == least(list@.take(i as int)),
        decreases list.len() - i,
    {
        let ghost now = list@.take(i as int + 1);
        assert(now.drop_last() =~= list@.take(i as int));
        assert(now.last() == list@[i as int]);
        if list[i].lt(&r) {
            r = list[i];
        }
        i += 1;
    }
    assert(list@.take(list@.len() as int) =~= list@);
    r
}

/// Cancellations among fills and cancellations.
pub open spec fn cancel_share(fills: nat, cancels: nat) -> Rate {
    Rate { part: cancels as u64, whole: (fills + cancels) as u64 }
}

/// The report of many cancellations.
pub open spec fn cancel_report(fills: nat, cancels: nat, now_ms: u64) -> ErrorView {
    let rate = cancel_share(fills, cancels).shown();
    ErrorView {
        timestamp: now_ms,
        error_type: "high_cancel_rate"@,
        module: "TRADING"@,
        symbol: None,
        message: "High order cancellation rate: "@ + rate + "% ("@ + nat_text(cancels)
            + " cancels, "@ + nat_text(fills) + " fills)"@,
        context: seq![
            ("order_fills"@, nat_text(fills)),
            ("order_cancels"@, nat_text(cancels)),
            ("cancel_rate"@, rate + "%"@),
        ],
    }
}

/// The report of large losses.
pub open spec fn losses_report(average: Dec, smallest: Dec, updates: nat, now_ms: u64) ->
    ErrorView {
    ErrorView {
        timestamp: now_ms,
        error_type: "large_unrealized_losses"@,
        module: "TRADING"@,
        symbol: None,
        message: "Large unrealized losses detected: avg $"@ + money(average) + ", min $"@ + money(
            smallest,
        ),
        context: seq![
            ("avg_pnl"@, money(average)),
            ("min_pnl"@, money(smallest)),
            ("position_updates"@, nat_text(updates)),
        ],
    }
}

/// More than ten cancellations, and more of them than fills.
pub open spec fn cancels_too_often(fills: nat, cancels: nat) -> bool {
    cancel_share(fills, cancels).above(50) && cancels > 10
}

/// The average of more than five results, where one is below minus a hundred or the
/// average below minus fifty.
pub open spec fn large_losses(results: Seq<Dec>) -> Option<Dec> {
    if results.len() > 5 {
        match average_before(results, results.len() as int, results.len()) {
            Some(a) => if least(results)@ < dec_of(-100, 0)@ || a@ < dec_of(-50, 0)@ {
                Some(a)
            } else {
                None
            },
            None => None,
        }
    } else {
        None
    }
}

/// The errors with what the events show.
pub open spec fn event_errors(log: Seq<ErrorView>, events: Seq<Option<Json>>, now_ms: u64) -> Seq<
    ErrorView,
> {
    let fills = count_events(events, "order_filled"@);
    let cancels = count_events(events, "order_canceled"@);
    let updates = count_events(events, "position_updated"@);
    let results = told_results(events);
    let first = if cancels_too_often(fills, cancels) {
        capped(log, cancel_report(fills, cancels, now_ms), ERROR_LOG as nat)
    } else {
        log
    };
    match large_losses(results) {
        Some(a) => capped(first, losses_report(a, least(results), updates, now_ms), ERROR_LOG as nat),
        None => first,
    }
}

/// Looks for patterns in events, the newest first; `None` stands for a line that is
/// no event.
pub fn analyze_trading_events(
    events: &Vec<Option<Json>>,
    error_log: &mut Vec<ErrorLog>,
    now_ms: u64,
)
    requires
        events@.len() <= RECENT_EVENTS,
    ensures
        errors(final(error_log)@) == event_errors(errors(old(error_log)@), events@, now_ms),
{
    let mut fills: u64 = 0;
    let mut cancels: u64 = 0;
    let mut updates: u64 = 0;
    let mut results: Vec<Dec> = Vec::new();
    let mut i: usize = 0;
    proof {
        reveal_strlit("order_filled");
        reveal_strlit("order_canceled");
        reveal_strlit("position_updated");
        assert("order_filled"@.len() == 12 && "order_canceled"@.len() == 14
            && "position_updated"@.len() == 16);
        assert(events@.take(0) =~= Seq::<Option<Json>>::empty());
        assert(results@ =~= told_results(events@.take(0)));
    }
    while i < events.len()
        invariant
            i <= events@.len() <= RECENT_EVENTS,
            "order_filled"@.len() == 12,
            "order_canceled"@.len() == 14,
            "position_updated"@.len() == 16,
            fills == count_events(events@.take(i as int), "order_filled"@),
            cancels == count_events(events@.take(i as int), "order_canceled"@),
            updates == count_events(events@.take(i as int), "position_updated"@),
            results@ == told_results(events@.take(i as int)),
            fills <= i,
            cancels <= i,
            updates <= i,
            results@.len() <= i,
        decreases events.len() - i,
    {
        proof {
            let now = events@.take(i as int + 1);
            assert(now.drop_last() =~= events@.take(i as int));
            assert(now.last() == events@[i as int]);
        }
        let event = &events[i];
        if read_is_event(event, "order_filled") {
            fills = fills + 1;
        } else if read_is_event(event, "order_canceled") {
            cancels = cancels + 1;
        } else if read_is_event(event, "position_updated") {
            updates = updates + 1;
            if let Some(v) = event {
                if let Some(p) = v.get("unrealized_pnl") {
                    if let Some(d) = p.as_decimal() {
                        results.push(d);
                    }
                }
            }
        }
        i += 1;
    }
    assert(events@.take(events@.len() as int) =~= events@);
    let rate = Rate { part: cancels, whole: fills + cancels };
    if rate.is_above(50) && cancels > 10 {
        let rate_text = rate.text();
        let cancels_text = u64_text(cancels);
        let fills_text = u64_text(fills);
        let head = glue5(
            "High order cancellation rate: ",
            rate_text.as_str(),
            "% (",
            cancels_text.as_str(),
            " cancels, ",
        );
        let message = glue3(head.as_str(), fills_text.as_str(), " fills)");
        let mut context: Vec<(String, String)> = Vec::new();
        context.push(pair("order_fills", fills_text));
        context.push(pair("order_cancels", cancels_text));
        context.push(pair("cancel_rate", joined(rate_text.as_str(), "%")));
        let entry = ErrorLog {
            timestamp: now_ms,
            error_type: copy_of("high_cancel_rate"),
            module: copy_of("TRADING"),
            symbol: None,
            message,
            context,
        };
        let ghost report = cancel_report(fills as nat, cancels as nat, now_ms);
        assert(entry@.context =~= report.context);
        assert(entry@ =~= report);
        push_error(error_log, entry);
    }
    let n: usize = results.len();
    if n > 5 {
        if let Some(average) = average_opt(&results, n, n) {
            let smallest = find_least(&results);
            if smallest.lt(&Dec::new(-100, 0)) || average.lt(&Dec::new(-50, 0)) {
                let avg_text = money_text(average);
                let min_text = money_text(smallest);
                let head = glue3(
                    "Large unrealized losses detected: avg $",
                    avg_text.as_str(),
                    ", min $",
                );
                let message = joined(head.as_str(), min_text.as_str());
                let mut context: Vec<(String, String)> = Vec::new();
                context.push(pair("avg_pnl", avg_text));
                context.push(pair("min_pnl", min_text));
                context.push(pair("position_updates", u64_text(updates)));
                let entry = ErrorLog {
                    timestamp: now_ms,
                    error_type: copy_of("large_unrealized_losses"),
                    module: copy_of("TRADING"),
                    symbol: None,
                    message,
                    context,
                };
                let ghost report = losses_report(average, smallest, updates as nat, now_ms);
                assert(entry@.context =~= report.context);
                assert(entry@ =~= report);
                push_error(error_log, entry);
            }
        }
    }
}

/// From where a log that has grown to a size is read on: from its start where it was cut.
pub open spec fn resumed_at(last_position: u64, current_size: u64) -> u64 {
    if last_position > current_size {
        0
    } else {
        last_position
    }
}

/// From where a log is read on.
pub fn read_log_from(last_position: u64, current_size: u64) -> (r: u64)
    ensures
        r == resumed_at(last_position, current_size),
{
    if last_position > current_size {
        0
    } else {
        last_position
    }
}

/// The errors never grow beyond what is remembered.
pub proof fn law_error_log_is_bounded(
    log: Seq<ErrorView>,
    lines: Seq<Seq<char>>,
    events: Seq<Option<Json>>,
    now_ms: u64,
)
    requires
        log.len() <= ERROR_LOG,
    ensures
        last_errors(log + console_errors(lines, now_ms)).len() <= ERROR_LOG,
        event_errors(log, events, now_ms).len() <= ERROR_LOG,
{
}

/// A line is an error or a warning, never both. Each error of a log is reported; one report more is
/// made of more than ten errors, and of more than fifty warnings without an error.
pub proof fn law_reports_of_a_log(line: Seq<char>, lines: Seq<Seq<char>>, now_ms: u64)
    ensures
        !(is_error_line(line) && is_warning_line(line)),
        ({
            let bad = error_lines(lines).len();
            let warned = warning_lines(lines).len();
            let r = console_errors(lines, now_ms);
            &&& bad > 10 || (bad == 0 && warned > 50) ==> r.len() == bad + 1
            &&& bad <= 10 && (bad > 0 || warned <= 50) ==> r.len() == bad
            &&& forall|i: int|
                0 <= i < bad ==> (#[trigger] r[i]).context[0].1 == error_lines(lines)[i]
        }),
{
}

/// An error of a log is a line of it that is one.
pub proof fn law_errors_are_lines(lines: Seq<Seq<char>>, line: Seq<char>)
    ensures
        error_lines(lines).contains(line) <==> lines.contains(line) && is_error_line(line),
        warning_lines(lines).contains(line) <==> lines.contains(line) && is_warning_line(line),
    decreases lines.len(),
{
    if lines.len() > 0 {
        let head = lines.drop_last();
        law_errors_are_lines(head, line);
        lemma_kept_line(lines, error_lines(head), error_lines(lines), line);
        lemma_kept_line(lines, warning_lines(head), warning_lines(lines), line);
        if head.contains(line) {
            assert(lines[head.index_of(line)] == line);
        }
        if lines.contains(line) && line != lines.last() {
            assert(head[lines.index_of(line)] == line);
        }
        assert(lines[lines.len() - 1] == lines.last());
    }
}

proof fn lemma_kept_line(
    lines: Seq<Seq<char>>,
    before: Seq<Seq<char>>,
    after: Seq<Seq<char>>,
    line: Seq<char>,
)
    requires
        lines.len() > 0,
        after == before || after == before.push(lines.last()),
    ensures
        after.contains(line) <==> before.contains(line) || (after != before && line
            == lines.last()),
{
    if before.contains(line) {
        assert(after[before.index_of(line)] == line);
    }
    if after != before {
        assert(after[after.len() - 1] == lines.last());
    }
    if after.contains(line) && !before.contains(line) {
        let k = after.index_of(line);
        if k < before.len() {
            assert(before[k] == line);
        }
    }
}

/// The newest lines come first, and a thousand at most are kept.
pub proof fn law_newest_lines(lines: Seq<Seq<char>>)
    ensures
        newest_lines(lines).len() <= 1000,
        lines.len() <= 1000 ==> newest_lines(lines).len() == lines.len(),
        lines.len() > 0 ==> newest_lines(lines)[0] == lines.last(),
        forall|i: int, j: int|
            0 <= i < newest_lines(lines).len() && i + j == lines.len() - 1 ==> #[trigger] newest_lines(
                lines,
            )[i] == #[trigger] lines[j],
{
}

} // verus!
