//! Human-readable numbers and column-aligned text for the dashboard.

use crate::clock::now_since_epoch;
use crate::text::{chars_of, dec, dec_pad, push_char, push_dec, push_dec_pad, repeat};
use vstd::prelude::*;
use vstd::string::StringExecFns;

verus! {

/// `format_count`: `n` in decimal with a comma between each group of three digits.
pub open spec fn grouped(n: nat) -> Seq<char>
    decreases n,
{
    if n < 1000 {
        dec(n)
    } else {
        grouped(n / 1000) + seq![','] + dec_pad(n % 1000, 3)
    }
}

fn push_grouped(out: &mut String, n: u64)
    ensures
        final(out)@ == old(out)@ + grouped(n as nat),
    decreases n,
{
    if n < 1000 {
        push_dec(out, n);
    } else {
        push_grouped(out, n / 1000);
        push_char(out, ',');
        push_dec_pad(out, n % 1000, 3);
        assert(out@ =~= old(out)@ + grouped(n as nat));
    }
}

/// Thousands grouping: `1042` becomes `1,042`.
pub fn format_count(value: usize) -> (s: String)
    ensures
        s@ == grouped(value as nat),
{
    let mut s = String::new();
    push_grouped(&mut s, value as u64);
    s
}

/// `9h 18m`, `18m 04s`, `3d 07h`: the two largest units of a span of seconds.
pub open spec fn duration_text(elapsed: nat) -> Seq<char> {
    let days = elapsed / 86400;
    let hours = elapsed % 86400 / 3600;
    let minutes = elapsed % 3600 / 60;
    let seconds = elapsed % 60;
    if days > 0 {
        dec(days) + seq!['d', ' '] + dec_pad(hours, 2) + seq!['h']
    } else if hours > 0 {
        dec(hours) + seq!['h', ' '] + dec_pad(minutes, 2) + seq!['m']
    } else {
        dec(minutes) + seq!['m', ' '] + dec_pad(seconds, 2) + seq!['s']
    }
}

pub fn format_duration(elapsed: u64) -> (s: String)
    ensures
        s@ == duration_text(elapsed as nat),
{
    let days = elapsed / 86_400;
    let hours = elapsed % 86_400 / 3_600;
    let minutes = elapsed % 3_600 / 60;
    let seconds = elapsed % 60;
    let mut s = String::new();
    if days > 0 {
        push_dec(&mut s, days);
        push_char(&mut s, 'd');
        push_char(&mut s, ' ');
        push_dec_pad(&mut s, hours, 2);
        push_char(&mut s, 'h');
    } else if hours > 0 {
        push_dec(&mut s, hours);
        push_char(&mut s, 'h');
        push_char(&mut s, ' ');
        push_dec_pad(&mut s, minutes, 2);
        push_char(&mut s, 'm');
    } else {
        push_dec(&mut s, minutes);
        push_char(&mut s, 'm');
        push_char(&mut s, ' ');
        push_dec_pad(&mut s, seconds, 2);
        push_char(&mut s, 's');
    }
    assert(s@ =~= duration_text(elapsed as nat));
    s
}

/// How long a process started at `start_seconds` has run when the clock reads `now`:
/// `--` for an unknown start or a start in the future.
pub open spec fn uptime_text(start_seconds: nat, now: nat) -> Seq<char> {
    if start_seconds == 0 || now < start_seconds {
        seq!['-', '-']
    } else {
        duration_text((now - start_seconds) as nat)
    }
}

pub fn format_uptime_at(start_seconds: u64, now: u64) -> (s: String)
    ensures
        s@ == uptime_text(start_seconds as nat, now as nat),
{
    if start_seconds == 0 || now < start_seconds {
        let mut s = String::new();
        push_char(&mut s, '-');
        push_char(&mut s, '-');
        s
    } else {
        format_duration(now - start_seconds)
    }
}

/// Running time of a process that started `start_seconds` after the epoch, by the
/// current clock.
pub fn format_uptime(start_seconds: u64) -> (s: String)
    ensures
        exists|now: u64| s@ == uptime_text(start_seconds as nat, now as nat),
{
    let (now, _) = now_since_epoch();
    format_uptime_at(start_seconds, now)
}

/// Displayed width of text in terminal columns, as `UnicodeWidthStr::width` measures it.
pub uninterp spec fn display_width(s: Seq<char>) -> nat;

/// Printable ASCII: each such character takes one column.
pub open spec fn printable_ascii(s: Seq<char>) -> bool {
    forall|i: int| 0 <= i < s.len() ==> 0x20 <= (#[trigger] s[i]) as u32 <= 0x7e
}

/// `UnicodeWidthStr::width`: columns the text takes on a terminal. The crate documents
/// that printable ASCII takes one column per character; for other text the value is
/// left to the crate's tables, which are not restated here.
#[verifier::external_body]
pub(crate) fn str_width(s: &str) -> (w: usize)
    ensures
        w == display_width(s@),
        printable_ascii(s@) ==> w == s@.len(),
{
    unicode_width::UnicodeWidthStr::width(s)
}

/// `" ".repeat(k)`.
pub fn spaces(k: usize) -> (s: String)
    ensures
        s@ == repeat(' ', k as nat),
{
    let mut s = String::new();
    let mut i: usize = 0;
    while i < k
        invariant
            i <= k,
            s@ == repeat(' ', i as nat),
        decreases k - i,
    {
        push_char(&mut s, ' ');
        i = i + 1;
        assert(s@ =~= repeat(' ', i as nat));
    }
    s
}

pub open spec fn sat_sub(a: nat, b: nat) -> nat {
    if a >= b { (a - b) as nat } else { 0 }
}

/// Pads a label with spaces to `columns` display columns; a label already that wide stays
/// as it is.
pub fn pad_label(label: &str, columns: usize) -> (s: String)
    ensures
        s@ == label@ + repeat(' ', sat_sub(columns as nat, display_width(label@))),
{
    let used = str_width(label);
    let mut s = label.to_owned();
    let pad = spaces(columns.saturating_sub(used));
    s.append(pad.as_str());
    s
}

/// Like `pad_label`, but always leaves at least one space after the label.
pub fn pad_field_label(label: &str, columns: usize) -> (s: String)
    ensures
        s@ == label@ + repeat(
            ' ',
            if sat_sub(columns as nat, display_width(label@)) >= 1 {
                sat_sub(columns as nat, display_width(label@))
            } else {
                1
            },
        ),
{
    let used = str_width(label);
    let gap = columns.saturating_sub(used);
    let gap = if gap >= 1 { gap } else { 1 };
    let mut s = label.to_owned();
    let pad = spaces(gap);
    s.append(pad.as_str());
    s
}

/// Right-aligns text to `columns` display columns.
pub fn right_align(text: &str, columns: usize) -> (s: String)
    ensures
        s@ == repeat(' ', sat_sub(columns as nat, display_width(text@))) + text@,
{
    let used = str_width(text);
    let mut s = spaces(columns.saturating_sub(used));
    s.append(text);
    s
}

/// The longest prefix of `chars` whose characters, measured one at a time, fit in
/// `budget` columns.
pub open spec fn fitting_prefix_len(chars: Seq<char>, budget: nat) -> nat
    decreases chars.len(),
{
    if chars.len() == 0 || display_width(seq![chars[0]]) > budget {
        0
    } else {
        1 + fitting_prefix_len(chars.drop_first(), (budget - display_width(seq![chars[0]])) as nat)
    }
}

/// `truncate_columns`: text wider than `columns` is cut to the characters that fit in
/// `columns - 1` columns, then an ellipsis.
pub open spec fn truncated(text: Seq<char>, columns: nat) -> Seq<char> {
    if display_width(text) <= columns || columns == 0 {
        text
    } else {
        text.take(fitting_prefix_len(text, (columns - 1) as nat) as int).push('…')
    }
}

fn char_width(c: char) -> (w: usize)
    ensures
        w == display_width(seq![c]),
{
    let mut one = String::new();
    push_char(&mut one, c);
    assert(one@ =~= seq![c]);
    str_width(one.as_str())
}

/// Cuts text to a number of display columns, marking the cut with `…`.
pub fn truncate_columns(text: &str, columns: usize) -> (s: String)
    ensures
        s@ == truncated(text@, columns as nat),
{
    if str_width(text) <= columns || columns == 0 {
        return text.to_owned();
    }
    let chars = chars_of(text);
    let budget = columns - 1;
    let mut out = String::new();
    let mut used: usize = 0;
    let mut i: usize = 0;
    assert(chars@.skip(0) =~= text@);
    assert(chars@.skip(chars@.len() as int) =~= Seq::<char>::empty());
    while i < chars.len()
        invariant
            i <= chars@.len(),
            chars@ == text@,
            used <= budget,
            out@ == chars@.take(i as int),
            fitting_prefix_len(text@, budget as nat) == i + fitting_prefix_len(chars@.skip(i as int), (budget - used) as nat),
        ensures
            out@ == chars@.take(i as int),
            fitting_prefix_len(text@, budget as nat) == i,
        decreases chars@.len() - i,
    {
        let width = char_width(chars[i]);
        assert(chars@.skip(i as int)[0] == chars@[i as int]);
        assert(chars@.skip(i as int).drop_first() =~= chars@.skip(i + 1));
        if width > budget - used {
            break;
        }
        push_char(&mut out, chars[i]);
        used = used + width;
        i = i + 1;
        assert(out@ =~= chars@.take(i as int));
    }
    push_char(&mut out, '…');
    out
}

/// A refresh interval: whole milliseconds below a second, else seconds with one decimal.
pub open spec fn interval_text(millis: nat) -> Seq<char> {
    if millis % 1000 == 0 || millis >= 1000 {
        crate::decimal::one_decimal_text(millis) + "s"@
    } else {
        crate::text::dec(millis) + "ms"@
    }
}

pub fn format_interval(millis: u64) -> (s: String)
    ensures
        s@ == interval_text(millis as nat),
{
    let mut s = String::new();
    if millis % 1000 == 0 || millis >= 1000 {
        crate::decimal::push_one_decimal(&mut s, millis);
        s.append("s");
    } else {
        crate::text::push_dec(&mut s, millis);
        s.append("ms");
    }
    s
}

} // verus!
