//! The `system_profiler` report: a JSON document, the masking of identifying fields,
//! and its layout as indented key/value text for the hardware page.

use vstd::prelude::*;
use vstd::string::StringExecFns;
use crate::i18n::Language;
use crate::rdma::{device_view, DeviceView, RdmaDevice, RdmaStatus};
use crate::thunderbolt::{build_tb_buses, peer_lines, render_tb_tree, tb_tree_spec, tree_lines, TbSwitchInfo};
use crate::text::{chars_of, dec, eq_chars, join, push_char, push_dec, repeat, strings_view};
use crate::tui::DetailSection;

verus! {

/// A JSON value as the report holds it. A number keeps the text it is written with;
/// an object keeps its members in the order it lists them.
#[derive(Debug, PartialEq)]
pub enum JsonValue {
    Null,
    Bool(bool),
    Number(String),
    Text(String),
    Array(Vec<JsonValue>),
    Object(Vec<(String, JsonValue)>),
}

/// The indentation of a line at nesting `depth`: two spaces a level.
pub open spec fn indent(depth: nat) -> Seq<char> {
    repeat(' ', 2 * depth)
}

/// How a leaf value reads: a string as itself, `null` as `--`, anything else as JSON.
pub open spec fn scalar_text(v: JsonValue) -> Seq<char> {
    match v {
        JsonValue::Text(t) => t@,
        JsonValue::Null => "--"@,
        JsonValue::Bool(b) => if b { "true"@ } else { "false"@ },
        JsonValue::Number(n) => n@,
        _ => Seq::empty(),
    }
}

pub open spec fn is_nested(v: JsonValue) -> bool {
    v is Array || v is Object
}

/// Width of the key column at nesting `depth`: 30 columns, less the indentation.
pub open spec fn key_column(depth: nat) -> nat {
    if 2 * depth <= 30 { (30 - 2 * depth) as nat } else { 0 }
}

/// Spaces between a key of `key_len` characters and its value: up to the key column,
/// and never fewer than two, so that a long key never runs into its value.
pub open spec fn key_gap(depth: nat, key_len: nat) -> nat {
    let room: int = key_column(depth) - key_len;
    if room < 2 { 2 } else { room as nat }
}

/// The first member named `key`.
pub open spec fn member(entries: Seq<(String, JsonValue)>, key: Seq<char>) -> Option<JsonValue>
    decreases entries.len(),
{
    if entries.len() == 0 {
        None
    } else if entries[0].0@ == key {
        Some(entries[0].1)
    } else {
        member(entries.drop_first(), key)
    }
}

/// The string under `_name` in an object, if there is one.
pub open spec fn name_text(item: JsonValue) -> Option<Seq<char>> {
    match item {
        JsonValue::Object(entries) => match member(entries@, "_name"@) {
            Some(JsonValue::Text(t)) => Some(t@),
            _ => None,
        },
        _ => None,
    }
}

/// The heading of the `number`-th element of an array: its `_name` when that is a
/// string, else `#number`.
pub open spec fn item_heading(item: JsonValue, number: nat) -> Seq<char> {
    match name_text(item) {
        Some(t) => t,
        None => seq!['#'] + dec(number),
    }
}

/// A value laid out as indented text at nesting `depth`: an object as its members, one
/// a line (`_name` is left out, being the heading already); an array as its elements,
/// each under a heading and followed by an empty line; a leaf as a line of its own.
pub open spec fn flat(v: JsonValue, depth: nat) -> Seq<char>
    decreases v,
{
    match v {
        JsonValue::Object(entries) => flat_members(entries@, depth),
        JsonValue::Array(items) => flat_items(items@, depth),
        _ => indent(depth) + scalar_text(v) + seq!['\n'],
    }
}

pub open spec fn flat_members(entries: Seq<(String, JsonValue)>, depth: nat) -> Seq<char>
    decreases entries,
{
    if entries.len() == 0 {
        Seq::empty()
    } else {
        let key = entries.last().0@;
        let item = entries.last().1;
        let before = flat_members(entries.drop_last(), depth);
        if key == "_name"@ {
            before
        } else if is_nested(item) {
            before + indent(depth) + key + seq!['\n'] + flat(item, depth + 1)
        } else {
            before + indent(depth) + key + repeat(' ', key_gap(depth, key.len())) + scalar_text(item)
                + seq!['\n']
        }
    }
}

pub open spec fn flat_items(items: Seq<JsonValue>, depth: nat) -> Seq<char>
    decreases items,
{
    if items.len() == 0 {
        Seq::empty()
    } else {
        flat_items(items.drop_last(), depth) + indent(depth) + item_heading(items.last(), items.len())
            + seq!['\n'] + flat(items.last(), depth + 1) + seq!['\n']
    }
}

fn name_member(item: &JsonValue) -> (r: Option<&String>)
    ensures
        match name_text(*item) {
            Some(t) => r is Some && r->0@ == t,
            None => r is None,
        },
{
    match item {
        JsonValue::Object(entries) => {
            let mut i: usize = 0;
            assert(entries@.skip(0) =~= entries@);
            while i < entries.len()
                invariant
                    i <= entries@.len(),
                    *item == JsonValue::Object(*entries),
                    member(entries@, "_name"@) == member(entries@.skip(i as int), "_name"@),
                decreases entries@.len() - i,
            {
                let key = chars_of(entries[i].0.as_str());
                assert(entries@.skip(i as int).drop_first() =~= entries@.skip(i + 1));
                assert(entries@.skip(i as int)[0] == entries@[i as int]);
                if eq_chars(key.as_slice(), "_name") {
                    let found = &entries[i].1;
                    assert(member(entries@, "_name"@) == Some(*found));
                    return match found {
                        JsonValue::Text(t) => Some(t),
                        _ => None,
                    };
                }
                i = i + 1;
            }
            None
        },
        _ => None,
    }
}

/// Appends `v` laid out at nesting `depth`; `pad` is that depth's indentation and
/// `column` its key column.
fn write_flattened(v: &JsonValue, pad: &String, column: usize, output: &mut String, Ghost(depth): Ghost<nat>)
    requires
        pad@ == indent(depth),
        column == key_column(depth),
    ensures
        final(output)@ == old(output)@ + flat(*v, depth),
    decreases v,
{
    let ghost start = output@;
    let mut inner = pad.clone();
    inner.append("  ");
    proof {
        reveal_strlit("  ");
        assert(inner@ =~= indent(depth + 1));
    }
    let inner_column: usize = if column >= 2 { column - 2 } else { 0 };
    match v {
        JsonValue::Object(entries) => {
            let mut i: usize = 0;
            while i < entries.len()
                invariant
                    i <= entries@.len(),
                    inner@ == indent(depth + 1),
                    inner_column == key_column(depth + 1),
                    pad@ == indent(depth),
                    column == key_column(depth),
                    *v == JsonValue::Object(*entries),
                    output@ == start + flat_members(entries@.take(i as int), depth),
                decreases entries@.len() - i,
            {
                let key = &entries[i].0;
                let item = &entries[i].1;
                let key_chars = chars_of(key.as_str());
                let ghost before = output@;
                assert(entries@.take(i + 1).drop_last() =~= entries@.take(i as int));
                if eq_chars(key_chars.as_slice(), "_name") {
                } else if matches!(item, JsonValue::Object(_)) || matches!(item, JsonValue::Array(_)) {
                    output.append(pad.as_str());
                    output.append(key.as_str());
                    push_char(output, '\n');
                    proof {
                        assert(decreases_to!(*v => (*v)->Object_0));
                        assert(decreases_to!(*entries => entries@[i as int]));
                        assert(decreases_to!(entries@[i as int] => entries@[i as int].1));
                        assert(decreases_to!(*v => entries@[i as int].1));
                    }
                    write_flattened(item, &inner, inner_column, output, Ghost(depth + 1));
                } else {
                    output.append(pad.as_str());
                    output.append(key.as_str());
                    let len = key.unicode_len();
                    let room: usize = if len <= column { column - len } else { 0 };
                    let gap: usize = if room < 2 { 2 } else { room };
                    let mut k: usize = 0;
                    let ghost with_key = output@;
                    while k < gap
                        invariant
                            k <= gap,
                            output@ == with_key + repeat(' ', k as nat),
                        decreases gap - k,
                    {
                        push_char(output, ' ');
                        k = k + 1;
                        assert(output@ =~= with_key + repeat(' ', k as nat));
                    }
                    write_scalar(item, output);
                    push_char(output, '\n');
                }
                i = i + 1;
            }
            assert(entries@.take(entries@.len() as int) =~= entries@);
        },
        JsonValue::Array(items) => {
            let mut i: usize = 0;
            while i < items.len()
                invariant
                    i <= items@.len(),
                    inner@ == indent(depth + 1),
                    inner_column == key_column(depth + 1),
                    pad@ == indent(depth),
                    *v == JsonValue::Array(*items),
                    output@ == start + flat_items(items@.take(i as int), depth),
                decreases items@.len() - i,
            {
                let item = &items[i];
                assert(items@.take(i + 1).drop_last() =~= items@.take(i as int));
                output.append(pad.as_str());
                match name_member(item) {
                    Some(name) => output.append(name.as_str()),
                    None => {
                        push_char(output, '#');
                        push_dec(output, (i + 1) as u64);
                    },
                }
                push_char(output, '\n');
                proof {
                    assert(decreases_to!(*v => (*v)->Array_0));
                    assert(decreases_to!(*items => items@[i as int]));
                    assert(decreases_to!(*v => items@[i as int]));
                }
                write_flattened(item, &inner, inner_column, output, Ghost(depth + 1));
                push_char(output, '\n');
                i = i + 1;
            }
            assert(items@.take(items@.len() as int) =~= items@);
        },
        _ => {
            output.append(pad.as_str());
            write_scalar(v, output);
            push_char(output, '\n');
        },
    }
}

/// Appends how a leaf value reads.
fn write_scalar(v: &JsonValue, output: &mut String)
    ensures
        final(output)@ == old(output)@ + scalar_text(*v),
{
    proof {
        reveal_strlit("--");
        reveal_strlit("true");
        reveal_strlit("false");
    }
    match v {
        JsonValue::Text(t) => output.append(t.as_str()),
        JsonValue::Null => output.append("--"),
        JsonValue::Bool(b) => if *b { output.append("true") } else { output.append("false") },
        JsonValue::Number(n) => output.append(n.as_str()),
        _ => {},
    }
}

/// A value laid out as indented key/value text, for a detail pane that cannot show raw
/// JSON.
pub fn flatten_json(v: &JsonValue) -> (s: String)
    ensures
        s@ == flat(*v, 0),
{
    let mut output = String::new();
    let pad = String::new();
    proof {
        assert(pad@ =~= indent(0));
    }
    write_flattened(v, &pad, 30, &mut output, Ghost(0));
    assert(output@ =~= flat(*v, 0));
    output
}

/// The text that stands in for an identifying value.
pub open spec fn mask() -> Seq<char> {
    "••••••"@
}

/// `after` is `before`'s members with identifying values masked: every member keeps
/// its key and place; one whose key is sensitive holds the mask; an object is masked
/// within, and so is every object directly inside an array; anything else is kept.
pub open spec fn members_redacted(before: Seq<(String, JsonValue)>, after: Seq<(String, JsonValue)>) -> bool
    decreases before,
{
    if before.len() == 0 {
        after.len() == 0
    } else {
        let b = before.last();
        &&& after.len() == before.len()
        &&& members_redacted(before.drop_last(), after.drop_last())
        &&& after.last().0 == b.0
        &&& if crate::collector::sensitive_key(b.0@) {
            after.last().1 matches JsonValue::Text(t) && t@ == mask()
        } else {
            match b.1 {
                JsonValue::Object(inner) => after.last().1 matches JsonValue::Object(done) && members_redacted(
                    inner@,
                    done@,
                ),
                JsonValue::Array(items) => after.last().1 matches JsonValue::Array(done) && items_redacted(
                    items@,
                    done@,
                ),
                _ => after.last().1 == b.1,
            }
        }
    }
}

/// `after` is `before` with each object masked within; other elements are kept.
pub open spec fn items_redacted(before: Seq<JsonValue>, after: Seq<JsonValue>) -> bool
    decreases before,
{
    if before.len() == 0 {
        after.len() == 0
    } else {
        &&& after.len() == before.len()
        &&& items_redacted(before.drop_last(), after.drop_last())
        &&& match before.last() {
            JsonValue::Object(inner) => after.last() matches JsonValue::Object(done) && members_redacted(
                inner@,
                done@,
            ),
            _ => after.last() == before.last(),
        }
    }
}

fn redact_members(entries: Vec<(String, JsonValue)>) -> (r: Vec<(String, JsonValue)>)
    ensures
        members_redacted(entries@, r@),
    decreases entries,
{
    let ghost whole = entries@;
    let mut rest = entries;
    let mut out: Vec<(String, JsonValue)> = Vec::new();
    proof {
        assert(whole.skip(0) =~= whole);
        assert(whole.take(0) =~= Seq::<(String, JsonValue)>::empty());
    }
    while rest.len() > 0
        invariant
            whole == entries@,
            out@.len() + rest@.len() == whole.len(),
            rest@ == whole.skip(out@.len() as int),
            members_redacted(whole.take(out@.len() as int), out@),
        decreases rest@.len(),
    {
        let ghost j = out@.len() as int;
        assert(rest@[0] == whole[j]);
        let (key, item) = rest.remove(0);
        let value = if crate::collector::is_sensitive_key(key.as_str()) {
            JsonValue::Text("••••••".to_owned())
        } else {
            match item {
                JsonValue::Object(inner) => {
                    proof {
                        assert(decreases_to!(entries => entries@[j]));
                        assert(decreases_to!(entries@[j] => entries@[j].1));
                        assert(decreases_to!(entries@[j].1 => entries@[j].1->Object_0));
                    }
                    JsonValue::Object(redact_members(inner))
                },
                JsonValue::Array(items) => {
                    proof {
                        assert(decreases_to!(entries => entries@[j]));
                        assert(decreases_to!(entries@[j] => entries@[j].1));
                        assert(decreases_to!(entries@[j].1 => entries@[j].1->Array_0));
                    }
                    JsonValue::Array(redact_items(items))
                },
                other => other,
            }
        };
        let ghost out_before = out@;
        out.push((key, value));
        proof {
            assert(whole.take(j + 1).drop_last() =~= whole.take(j));
            assert(out@.drop_last() =~= out_before);
            assert(rest@ =~= whole.skip(j + 1));
        }
    }
    assert(whole.take(whole.len() as int) =~= whole);
    out
}

fn redact_items(items: Vec<JsonValue>) -> (r: Vec<JsonValue>)
    ensures
        items_redacted(items@, r@),
    decreases items,
{
    let ghost whole = items@;
    let mut rest = items;
    let mut out: Vec<JsonValue> = Vec::new();
    proof {
        assert(whole.skip(0) =~= whole);
        assert(whole.take(0) =~= Seq::<JsonValue>::empty());
    }
    while rest.len() > 0
        invariant
            whole == items@,
            out@.len() + rest@.len() == whole.len(),
            rest@ == whole.skip(out@.len() as int),
            items_redacted(whole.take(out@.len() as int), out@),
        decreases rest@.len(),
    {
        let ghost j = out@.len() as int;
        assert(rest@[0] == whole[j]);
        let item = rest.remove(0);
        let value = match item {
            JsonValue::Object(inner) => {
                proof {
                    assert(decreases_to!(items => items@[j]));
                    assert(decreases_to!(items@[j] => items@[j]->Object_0));
                }
                JsonValue::Object(redact_members(inner))
            },
            other => other,
        };
        let ghost out_before = out@;
        out.push(value);
        proof {
            assert(whole.take(j + 1).drop_last() =~= whole.take(j));
            assert(out@.drop_last() =~= out_before);
            assert(rest@ =~= whole.skip(j + 1));
        }
    }
    assert(whole.take(whole.len() as int) =~= whole);
    out
}

/// Masks serial numbers, UUIDs, UDIDs and addresses throughout an object's members, in
/// place, so that a report can be shown or shared.
pub fn redact_json(value: &mut Vec<(String, JsonValue)>)
    ensures
        members_redacted(old(value)@, final(value)@),
{
    let mut taken: Vec<(String, JsonValue)> = Vec::new();
    std::mem::swap(value, &mut taken);
    *value = redact_members(taken);
}

/// The name a section of the report goes by: in Chinese, a Chinese name for each data
/// type the hardware page asks for (others keep their key); in English, the key itself,
/// as `system_profiler` spells it.
pub open spec fn section_label(key: Seq<char>, language: Language) -> Seq<char> {
    if language == Language::English {
        key
    } else if key == "SPHardwareDataType"@ {
        "硬件概览"@
    } else if key == "SPDisplaysDataType"@ {
        "显示与显卡"@
    } else if key == "SPMemoryDataType"@ {
        "内存"@
    } else if key == "SPStorageDataType"@ {
        "存储"@
    } else if key == "SPPowerDataType"@ {
        "电源与电池"@
    } else if key == "SPNetworkDataType"@ {
        "网络"@
    } else if key == "SPUSBDataType"@ {
        "USB"@
    } else if key == "SPThunderboltDataType"@ {
        "Thunderbolt"@
    } else if key == "SPBluetoothDataType"@ {
        "蓝牙"@
    } else if key == "SPAudioDataType"@ {
        "音频"@
    } else if key == "SPCameraDataType"@ {
        "摄像头"@
    } else {
        key
    }
}

pub fn hardware_section_label<'a>(key: &'a str, language: Language) -> (r: &'a str)
    ensures
        r@ == section_label(key@, language),
{
    if language == Language::English {
        return key;
    }
    let k = chars_of(key);
    let k = k.as_slice();
    if eq_chars(k, "SPHardwareDataType") {
        "硬件概览"
    } else if eq_chars(k, "SPDisplaysDataType") {
        "显示与显卡"
    } else if eq_chars(k, "SPMemoryDataType") {
        "内存"
    } else if eq_chars(k, "SPStorageDataType") {
        "存储"
    } else if eq_chars(k, "SPPowerDataType") {
        "电源与电池"
    } else if eq_chars(k, "SPNetworkDataType") {
        "网络"
    } else if eq_chars(k, "SPUSBDataType") {
        "USB"
    } else if eq_chars(k, "SPThunderboltDataType") {
        "Thunderbolt"
    } else if eq_chars(k, "SPBluetoothDataType") {
        "蓝牙"
    } else if eq_chars(k, "SPAudioDataType") {
        "音频"
    } else if eq_chars(k, "SPCameraDataType") {
        "摄像头"
    } else {
        key
    }
}


spec fn label_initial(rank: nat) -> char {
    if rank == 0 {
        '硬'
    } else if rank == 1 {
        '内'
    } else if rank == 2 {
        '存'
    } else if rank == 3 {
        '显'
    } else if rank == 4 {
        '电'
    } else if rank == 5 {
        '网'
    } else if rank == 6 {
        '蓝'
    } else if rank == 7 {
        'T'
    } else if rank == 8 {
        'U'
    } else if rank == 9 {
        '音'
    } else {
        '摄'
    }
}

proof fn lemma_known_label(k: Seq<char>)
    requires
        section_rank(k) < 11,
    ensures
        section_label(k, Language::Chinese).len() > 0,
        section_label(k, Language::Chinese)[0] == label_initial(section_rank(k)),
        section_label(k, Language::Chinese) != k,
{
    reveal_strlit("SPHardwareDataType");
    reveal_strlit("SPDisplaysDataType");
    reveal_strlit("SPMemoryDataType");
    reveal_strlit("SPStorageDataType");
    reveal_strlit("SPPowerDataType");
    reveal_strlit("SPNetworkDataType");
    reveal_strlit("SPUSBDataType");
    reveal_strlit("SPThunderboltDataType");
    reveal_strlit("SPBluetoothDataType");
    reveal_strlit("SPAudioDataType");
    reveal_strlit("SPCameraDataType");
    reveal_strlit("硬件概览");
    reveal_strlit("显示与显卡");
    reveal_strlit("内存");
    reveal_strlit("存储");
    reveal_strlit("电源与电池");
    reveal_strlit("网络");
    reveal_strlit("USB");
    reveal_strlit("Thunderbolt");
    reveal_strlit("蓝牙");
    reveal_strlit("音频");
    reveal_strlit("摄像头");
    let l = section_label(k, Language::Chinese);
    if k == "SPHardwareDataType"@ {
        assert(l == "硬件概览"@);
    } else if k == "SPMemoryDataType"@ {
        assert("SPMemoryDataType"@.len() == 16 && "SPDisplaysDataType"@.len() == 18);
        assert(k != "SPDisplaysDataType"@);
        assert(l == "内存"@);
    } else if k == "SPStorageDataType"@ {
        assert(k != "SPDisplaysDataType"@ && k != "SPMemoryDataType"@);
        assert(l == "存储"@);
    } else if k == "SPDisplaysDataType"@ {
        assert(l == "显示与显卡"@);
    } else if k == "SPPowerDataType"@ {
        assert(k != "SPDisplaysDataType"@ && k != "SPMemoryDataType"@ && k != "SPStorageDataType"@);
        assert(l == "电源与电池"@);
    } else if k == "SPNetworkDataType"@ {
        assert(l == "网络"@);
    } else if k == "SPBluetoothDataType"@ {
        assert("SPBluetoothDataType"@.len() == 19 && "SPUSBDataType"@.len() == 13);
        assert("SPThunderboltDataType"@.len() == 21);
        assert(k != "SPUSBDataType"@ && k != "SPThunderboltDataType"@);
        assert(l == "蓝牙"@);
    } else if k == "SPThunderboltDataType"@ {
        assert(k != "SPUSBDataType"@);
        assert(l == "Thunderbolt"@);
    } else if k == "SPUSBDataType"@ {
        assert(l == "USB"@);
    } else if k == "SPAudioDataType"@ {
        assert(l == "音频"@);
    } else {
        assert(l == "摄像头"@);
    }
    assert(k[0] == 'S');
    assert(l[0] != 'S');
}

proof fn lemma_rank_determines_key(k1: Seq<char>, k2: Seq<char>)
    requires
        section_rank(k1) < 11,
        section_rank(k1) == section_rank(k2),
    ensures
        k1 == k2,
{
}

/// The data types the hardware page asks for each get a name of their own in Chinese:
/// two different ones never share a label, none is shown under its raw key, and any
/// other key, or any key in English, is shown as it is.
pub proof fn lemma_section_labels_tell_data_types_apart(k1: Seq<char>, k2: Seq<char>)
    ensures
        section_rank(k1) < 11 && section_rank(k2) < 11 && k1 != k2 ==> section_label(k1, Language::Chinese)
            != section_label(k2, Language::Chinese),
        section_rank(k1) < 11 ==> section_label(k1, Language::Chinese) != k1,
        section_rank(k1) == 11 ==> section_label(k1, Language::Chinese) == k1,
        section_label(k1, Language::English) == k1,
{
    if section_rank(k1) < 11 {
        lemma_known_label(k1);
        if section_rank(k2) < 11 && k1 != k2 {
            lemma_known_label(k2);
            if section_rank(k1) == section_rank(k2) {
                lemma_rank_determines_key(k1, k2);
            }
            assert(label_initial(section_rank(k1)) != label_initial(section_rank(k2)));
        }
    }
}

/// Where a data type stands on the hardware page: from the machine as a whole out to
/// its peripherals; data types not listed come after all of them.
pub open spec fn section_rank(key: Seq<char>) -> nat {
    if key == "SPHardwareDataType"@ {
        0
    } else if key == "SPMemoryDataType"@ {
        1
    } else if key == "SPStorageDataType"@ {
        2
    } else if key == "SPDisplaysDataType"@ {
        3
    } else if key == "SPPowerDataType"@ {
        4
    } else if key == "SPNetworkDataType"@ {
        5
    } else if key == "SPBluetoothDataType"@ {
        6
    } else if key == "SPThunderboltDataType"@ {
        7
    } else if key == "SPUSBDataType"@ {
        8
    } else if key == "SPAudioDataType"@ {
        9
    } else if key == "SPCameraDataType"@ {
        10
    } else {
        11
    }
}

fn rank_of(k: &[char]) -> (r: usize)
    ensures
        r == section_rank(k@),
{
    if eq_chars(k, "SPHardwareDataType") {
        0
    } else if eq_chars(k, "SPMemoryDataType") {
        1
    } else if eq_chars(k, "SPStorageDataType") {
        2
    } else if eq_chars(k, "SPDisplaysDataType") {
        3
    } else if eq_chars(k, "SPPowerDataType") {
        4
    } else if eq_chars(k, "SPNetworkDataType") {
        5
    } else if eq_chars(k, "SPBluetoothDataType") {
        6
    } else if eq_chars(k, "SPThunderboltDataType") {
        7
    } else if eq_chars(k, "SPUSBDataType") {
        8
    } else if eq_chars(k, "SPAudioDataType") {
        9
    } else if eq_chars(k, "SPCameraDataType") {
        10
    } else {
        11
    }
}

/// `a` comes before `b` in the order of `str`: the first character that differs decides,
/// by its scalar value, and a proper prefix comes first.
pub open spec fn chars_less(a: Seq<char>, b: Seq<char>) -> bool
    decreases a.len(),
{
    if a.len() == 0 {
        b.len() > 0
    } else if b.len() == 0 {
        false
    } else if a[0] != b[0] {
        a[0] < b[0]
    } else {
        chars_less(a.drop_first(), b.drop_first())
    }
}

fn less_from(a: &[char], b: &[char], i: usize) -> (r: bool)
    requires
        i <= a@.len(),
        i <= b@.len(),
    ensures
        r == chars_less(a@.skip(i as int), b@.skip(i as int)),
    decreases a@.len() - i,
{
    let ghost sa = a@.skip(i as int);
    let ghost sb = b@.skip(i as int);
    if i == a.len() {
        i < b.len()
    } else if i == b.len() {
        false
    } else if a[i] != b[i] {
        assert(sa[0] == a@[i as int] && sb[0] == b@[i as int]);
        a[i] < b[i]
    } else {
        assert(sa.drop_first() =~= a@.skip(i + 1));
        assert(sb.drop_first() =~= b@.skip(i + 1));
        less_from(a, b, i + 1)
    }
}

/// Section `a` is listed before section `b`: by rank, then by key.
pub open spec fn section_before(a: Seq<char>, b: Seq<char>) -> bool {
    section_rank(a) < section_rank(b) || (section_rank(a) == section_rank(b) && chars_less(a, b))
}

fn before(a: &str, b: &str) -> (r: bool)
    ensures
        r == section_before(a@, b@),
{
    let ca = chars_of(a);
    let cb = chars_of(b);
    let ra = rank_of(ca.as_slice());
    let rb = rank_of(cb.as_slice());
    assert(ca@.skip(0) =~= ca@);
    assert(cb@.skip(0) =~= cb@);
    ra < rb || (ra == rb && less_from(ca.as_slice(), cb.as_slice(), 0))
}

/// `x` put into `sorted` after every member that it does not come before.
pub open spec fn insert_section(sorted: Seq<(String, JsonValue)>, x: (String, JsonValue)) -> Seq<(String, JsonValue)>
    decreases sorted.len(),
{
    if sorted.len() == 0 || !section_before(x.0@, sorted.last().0@) {
        sorted.push(x)
    } else {
        insert_section(sorted.drop_last(), x).push(sorted.last())
    }
}

/// The members of a report in the order of the hardware page: by rank, then by key,
/// members that tie keeping their order.
pub open spec fn sections_in_order(s: Seq<(String, JsonValue)>) -> Seq<(String, JsonValue)>
    decreases s.len(),
{
    if s.len() == 0 {
        s
    } else {
        insert_section(sections_in_order(s.drop_last()), s.last())
    }
}

pub open spec fn pick(s: Seq<(String, JsonValue)>, idx: Seq<usize>) -> Seq<(String, JsonValue)> {
    idx.map_values(|k: usize| s[k as int])
}

proof fn lemma_insert_at(sorted: Seq<(String, JsonValue)>, x: (String, JsonValue), k: int)
    requires
        0 <= k <= sorted.len(),
        forall|m: int| k <= m < sorted.len() ==> section_before(x.0@, #[trigger] sorted[m].0@),
        k == 0 || !section_before(x.0@, sorted[k - 1].0@),
    ensures
        insert_section(sorted, x) == sorted.insert(k, x),
    decreases sorted.len(),
{
    if sorted.len() == k {
        assert(sorted.push(x) =~= sorted.insert(k, x));
    } else {
        let d = sorted.drop_last();
        assert(section_before(x.0@, sorted[sorted.len() - 1].0@));
        lemma_insert_at(d, x, k);
        assert(d.insert(k, x).push(sorted.last()) =~= sorted.insert(k, x));
    }
}

/// The hardware page's sections: one per data type of the report, in the page's order,
/// each under its name and laid out as text.
pub fn hardware_sections(sections: &Vec<(String, JsonValue)>, language: Language) -> (r: Vec<DetailSection>)
    ensures
        r@.len() == sections@.len(),
        forall|i: int| 0 <= i < r@.len() ==> {
            let e = #[trigger] sections_in_order(sections@)[i];
            &&& r@[i].name@ == section_label(e.0@, language)
            &&& r@[i].body@ == flat(e.1, 0)
        },
{
    let mut order: Vec<usize> = Vec::new();
    let mut i: usize = 0;
    assert(sections@.take(0) =~= Seq::<(String, JsonValue)>::empty());
    while i < sections.len()
        invariant
            i <= sections@.len(),
            order@.len() == i,
            forall|m: int| 0 <= m < order@.len() ==> #[trigger] order@[m] < sections@.len(),
            pick(sections@, order@) == sections_in_order(sections@.take(i as int)),
        decreases sections@.len() - i,
    {
        let key = sections[i].0.as_str();
        let mut k = order.len();
        while k > 0 && before(key, sections[order[k - 1]].0.as_str())
            invariant
                k <= order@.len(),
                i < sections@.len(),
                key@ == sections@[i as int].0@,
                forall|m: int| 0 <= m < order@.len() ==> #[trigger] order@[m] < sections@.len(),
                forall|m: int| k <= m < order@.len() ==> section_before(key@, #[trigger] pick(sections@, order@)[m].0@),
            decreases k,
        {
            k = k - 1;
        }
        proof {
            let p = pick(sections@, order@);
            assert(sections@.take(i + 1).drop_last() =~= sections@.take(i as int));
            assert(sections@.take(i + 1).last() == sections@[i as int]);
            lemma_insert_at(p, sections@[i as int], k as int);
        }
        let ghost before_order = order@;
        order.insert(k, i);
        proof {
            assert(pick(sections@, order@) =~= pick(sections@, before_order).insert(k as int, sections@[i as int]));
        }
        i = i + 1;
    }
    assert(sections@.take(sections@.len() as int) =~= sections@);
    let mut r: Vec<DetailSection> = Vec::new();
    let mut j: usize = 0;
    while j < order.len()
        invariant
            j <= order@.len(),
            order@.len() == sections@.len(),
            forall|m: int| 0 <= m < order@.len() ==> #[trigger] order@[m] < sections@.len(),
            pick(sections@, order@) == sections_in_order(sections@),
            r@.len() == j,
            forall|m: int| 0 <= m < j ==> {
                let e = #[trigger] sections_in_order(sections@)[m];
                &&& r@[m].name@ == section_label(e.0@, language)
                &&& r@[m].body@ == flat(e.1, 0)
            },
        decreases order@.len() - j,
    {
        let entry = &sections[order[j]];
        assert(*entry == sections_in_order(sections@)[j as int]);
        let name = hardware_section_label(entry.0.as_str(), language).to_owned();
        let body = flatten_json(&entry.1);
        r.push(DetailSection { name, body });
        j = j + 1;
    }
    r
}

/// One RDMA device under the hardware page's RDMA section: its name on a line of its own,
/// then transport, port state, MTU, link layer and, where known, the interface.
pub open spec fn device_text(d: DeviceView) -> Seq<char> {
    "\n"@ + d.0 + "\n  transport "@ + d.1 + " · state "@ + d.3 + " · mtu "@ + dec(d.4 as nat) + " · link "@
        + d.5 + if d.6.len() == 0 { Seq::empty() } else { " · "@ + d.6 }
}

pub open spec fn devices_text(ds: Seq<DeviceView>) -> Seq<char>
    decreases ds.len(),
{
    if ds.len() == 0 {
        Seq::empty()
    } else {
        devices_text(ds.drop_last()) + device_text(ds.last())
    }
}

/// The body of the Thunderbolt section: the bus tree and the bridge peers, or the
/// language's word for unavailable when there is neither.
pub open spec fn thunderbolt_body(switches: Seq<TbSwitchInfo>, peers: Seq<Seq<char>>, language: Language) -> Seq<char> {
    if tb_tree_spec(switches).len() == 0 && peers.len() == 0 {
        language.text().unavailable@
    } else {
        join(tree_lines(tb_tree_spec(switches)) + peer_lines(peers), "\n"@)
    }
}

/// The body of the RDMA section: the state in words, then each device.
pub open spec fn rdma_body(status: RdmaStatus) -> Seq<char> {
    status.status@ + "\n"@ + devices_text(status.devices@.map_values(|d: RdmaDevice| device_view(d)))
}

/// The hardware page's two transport sections, Thunderbolt and RDMA, from what was read
/// of the switches, the bridge peers and `rdma_ctl`.
pub fn transport_sections(
    switches: &[TbSwitchInfo],
    peers: &[String],
    rdma: &RdmaStatus,
    language: Language,
) -> (r: Vec<DetailSection>)
    ensures
        r@.len() == 2,
        r@[0].name@ == language.text().section_thunderbolt@,
        r@[0].body@ == thunderbolt_body(switches@, strings_view(peers@), language),
        r@[1].name@ == language.text().section_rdma@,
        r@[1].body@ == rdma_body(*rdma),
{
    let strings = language.strings();
    let buses = build_tb_buses(switches);
    let tb_body = if buses.len() == 0 && peers.len() == 0 {
        strings.unavailable.to_owned()
    } else {
        render_tb_tree(buses.as_slice(), peers)
    };
    let ghost views = rdma.devices@.map_values(|d: RdmaDevice| device_view(d));
    let mut body = rdma.status.clone();
    push_char(&mut body, '\n');
    proof {
        reveal_strlit("\n");
        assert(views.take(0) =~= Seq::<DeviceView>::empty());
    }
    let mut i: usize = 0;
    while i < rdma.devices.len()
        invariant
            i <= rdma.devices@.len(),
            views == rdma.devices@.map_values(|d: RdmaDevice| device_view(d)),
            body@ == rdma.status@ + "\n"@ + devices_text(views.take(i as int)),
        decreases rdma.devices@.len() - i,
    {
        let d = &rdma.devices[i];
        let ghost start = body@;
        proof {
            reveal_strlit("\n");
            reveal_strlit("\n  transport ");
            reveal_strlit(" · state ");
            reveal_strlit(" · mtu ");
            reveal_strlit(" · link ");
            reveal_strlit(" · ");
        }
        push_char(&mut body, '\n');
        body.append(d.name.as_str());
        assert(body@ == start + "\n"@ + d.name@);
        body.append("\n  transport ");
        body.append(d.transport.as_str());
        body.append(" · state ");
        body.append(d.port_state.as_str());
        body.append(" · mtu ");
        push_dec(&mut body, d.active_mtu as u64);
        assert(body@ == start + "\n"@ + d.name@ + "\n  transport "@ + d.transport@ + " · state "@
            + d.port_state@ + " · mtu "@ + dec(d.active_mtu as nat));
        body.append(" · link ");
        body.append(d.link_layer.as_str());
        if d.interface.unicode_len() > 0 {
            body.append(" · ");
            body.append(d.interface.as_str());
        }
        proof {
            assert(views.take(i + 1).drop_last() =~= views.take(i as int));
            assert(views[i as int] == device_view(rdma.devices@[i as int]));
            assert(body@ =~= start + device_text(views[i as int]));
        }
        i = i + 1;
    }
    assert(views.take(views.len() as int) =~= views);
    let mut r: Vec<DetailSection> = Vec::new();
    r.push(DetailSection { name: strings.section_thunderbolt.to_owned(), body: tb_body });
    r.push(DetailSection { name: strings.section_rdma.to_owned(), body });
    r
}

proof fn lemma_chars_less_asymmetric(a: Seq<char>, b: Seq<char>)
    ensures
        chars_less(a, b) ==> !chars_less(b, a),
    decreases a.len(),
{
    if a.len() > 0 && b.len() > 0 && a[0] == b[0] {
        lemma_chars_less_asymmetric(a.drop_first(), b.drop_first());
    }
}

proof fn lemma_chars_less_transitive(a: Seq<char>, b: Seq<char>, c: Seq<char>)
    requires
        chars_less(a, b),
        chars_less(b, c),
    ensures
        chars_less(a, c),
    decreases a.len(),
{
    if a.len() > 0 && a[0] == b[0] && b[0] == c[0] {
        lemma_chars_less_transitive(a.drop_first(), b.drop_first(), c.drop_first());
    }
}

proof fn lemma_chars_less_total(a: Seq<char>, b: Seq<char>)
    requires
        a != b,
    ensures
        chars_less(a, b) || chars_less(b, a),
    decreases a.len(),
{
    if a.len() == 0 {
        assert(b.len() > 0) by {
            if b.len() == 0 {
                assert(a =~= b);
            }
        }
    } else if b.len() > 0 && a[0] == b[0] {
        if a.drop_first() == b.drop_first() {
            assert(a =~= seq![a[0]] + a.drop_first());
            assert(b =~= seq![b[0]] + b.drop_first());
        }
        lemma_chars_less_total(a.drop_first(), b.drop_first());
    }
}

/// Whenever `x` comes before `z`, any `y` comes after `x` or before `z`.
proof fn lemma_before_splits(x: Seq<char>, y: Seq<char>, z: Seq<char>)
    ensures
        section_before(x, z) ==> section_before(x, y) || section_before(y, z),
        section_before(x, y) ==> !section_before(y, x),
{
    lemma_chars_less_asymmetric(x, y);
    if section_before(x, z) && section_rank(x) == section_rank(y) && section_rank(y) == section_rank(z) {
        if y == x {
        } else {
            lemma_chars_less_total(x, y);
            if chars_less(y, x) {
                lemma_chars_less_transitive(y, x, z);
            }
        }
    }
}

/// No section is listed before one that the hardware page puts ahead of it.
pub open spec fn in_page_order(s: Seq<(String, JsonValue)>) -> bool {
    forall|i: int, j: int| 0 <= i < j < s.len() ==> !section_before(#[trigger] s[j].0@, #[trigger] s[i].0@)
}

/// Where `insert_section` puts `x`.
spec fn insert_pos(sorted: Seq<(String, JsonValue)>, x: (String, JsonValue)) -> nat
    decreases sorted.len(),
{
    if sorted.len() == 0 || !section_before(x.0@, sorted.last().0@) {
        sorted.len()
    } else {
        insert_pos(sorted.drop_last(), x)
    }
}

proof fn lemma_insert_pos(sorted: Seq<(String, JsonValue)>, x: (String, JsonValue))
    ensures
        insert_pos(sorted, x) <= sorted.len(),
        forall|m: int| insert_pos(sorted, x) <= m < sorted.len() ==> section_before(x.0@, #[trigger] sorted[m].0@),
        insert_pos(sorted, x) == 0 || !section_before(x.0@, sorted[insert_pos(sorted, x) - 1].0@),
    decreases sorted.len(),
{
    if sorted.len() > 0 && section_before(x.0@, sorted.last().0@) {
        let d = sorted.drop_last();
        lemma_insert_pos(d, x);
        assert forall|m: int| insert_pos(sorted, x) <= m < sorted.len() implies section_before(
            x.0@,
            #[trigger] sorted[m].0@,
        ) by {
            if m < d.len() {
                assert(sorted[m] == d[m]);
            }
        }
    }
}

proof fn lemma_insert_keeps_order(t: Seq<(String, JsonValue)>, x: (String, JsonValue), p: int)
    requires
        in_page_order(t),
        0 <= p <= t.len(),
        forall|m: int| p <= m < t.len() ==> section_before(x.0@, #[trigger] t[m].0@),
        p == 0 || !section_before(x.0@, t[p - 1].0@),
    ensures
        in_page_order(t.insert(p, x)),
{
    let u = t.insert(p, x);
    assert forall|i: int, j: int| 0 <= i < j < u.len() implies !section_before(#[trigger] u[j].0@, #[trigger] u[i].0@) by {
        if j < p {
            assert(u[i] == t[i] && u[j] == t[j]);
        } else if j == p {
            assert(u[i] == t[i] && u[j] == x);
            if i < p - 1 {
                assert(!section_before(t[p - 1].0@, t[i].0@));
                lemma_before_splits(x.0@, t[p - 1].0@, t[i].0@);
            }
        } else if i < p {
            assert(u[i] == t[i] && u[j] == t[j - 1]);
        } else if i == p {
            assert(u[i] == x && u[j] == t[j - 1]);
            lemma_before_splits(x.0@, t[j - 1].0@, x.0@);
        } else {
            assert(u[i] == t[i - 1] && u[j] == t[j - 1]);
        }
    }
}

/// The hardware page lists each member of the report exactly as often as the report
/// holds it, and never lists a data type after one that should follow it.
pub proof fn lemma_sections_follow_page_order(s: Seq<(String, JsonValue)>)
    ensures
        in_page_order(sections_in_order(s)),
        sections_in_order(s).to_multiset() == s.to_multiset(),
    decreases s.len(),
{
    broadcast use vstd::seq_lib::to_multiset_build, vstd::seq_lib::to_multiset_insert;

    if s.len() == 0 {
        assert(in_page_order(s));
    } else {
        let rest = sections_in_order(s.drop_last());
        lemma_sections_follow_page_order(s.drop_last());
        lemma_insert_pos(rest, s.last());
        let p = insert_pos(rest, s.last()) as int;
        lemma_insert_at(rest, s.last(), p);
        lemma_insert_keeps_order(rest, s.last(), p);
        assert(s =~= s.drop_last().push(s.last()));
    }
}

} // verus!
