//! The line-protocol encoder: an ordered sequence of named, tagged metrics
//! becomes text lines `measurement,tags,host=<host> field=value,... <time>`,
//! adjacent metrics of one group sharing a line.
use vstd::prelude::*;
use crate::text::{chars_of, copy_range, decimal, digit_char, push_decimal, string_from_chars};

verus! {

/// One measured value: its name (`measurement_field`), its value written in
/// decimal, and its tags as `(key, value)` pairs with distinct keys.
#[derive(Debug)]
pub struct Metric {
    pub name: String,
    pub value: String,
    pub tags: Vec<(String, String)>,
}

impl View for Metric {
    type V = (Seq<char>, Seq<char>, Seq<(Seq<char>, Seq<char>)>);

    /// The name, the value and the tags, as texts.
    open spec fn view(&self) -> (Seq<char>, Seq<char>, Seq<(Seq<char>, Seq<char>)>) {
        (self.name@, self.value@, self.tags@.map_values(|t: (String, String)| (t.0@, t.1@)))
    }
}

/// The name splits at its first `_`.
pub open spec fn has_separator(name: Seq<char>) -> bool {
    exists|i: int| 0 <= i < name.len() && name[i] == '_'
}

/// Where the first `_` of the name stands.
pub open spec fn separator_index(name: Seq<char>) -> int {
    choose|i: int|
        0 <= i < name.len() && name[i] == '_' && forall|j: int| 0 <= j < i ==> name[j] != '_'
}

/// The measurement: the name up to its first `_`, or the whole name.
pub open spec fn measurement_of(name: Seq<char>) -> Seq<char> {
    if has_separator(name) {
        name.take(separator_index(name))
    } else {
        name
    }
}

/// The field: the name after its first `_`, or `value` where it has none.
pub open spec fn field_of(name: Seq<char>) -> Seq<char> {
    if has_separator(name) {
        name.skip(separator_index(name) + 1)
    } else {
        seq!['v', 'a', 'l', 'u', 'e']
    }
}

/// The characters that a tag value escapes with a backslash.
pub open spec fn needs_escape(c: char) -> bool {
    c == '\\' || c == ' ' || c == ',' || c == '='
}

/// A tag value with each backslash, space, comma and equals sign prefixed by
/// a backslash.
pub open spec fn escape(v: Seq<char>) -> Seq<char>
    decreases v.len(),
{
    if v.len() == 0 {
        Seq::empty()
    } else if needs_escape(v.last()) {
        escape(v.drop_last()) + seq!['\\', v.last()]
    } else {
        escape(v.drop_last()).push(v.last())
    }
}

/// Strict lexicographic order of texts, character by character; a proper
/// prefix comes first. It is the order of `String`'s `Ord`.
pub open spec fn text_less(a: Seq<char>, b: Seq<char>) -> bool
    decreases a.len(),
{
    if a.len() == 0 {
        b.len() > 0
    } else if b.len() == 0 {
        false
    } else if a[0] != b[0] {
        a[0] < b[0]
    } else {
        text_less(a.drop_first(), b.drop_first())
    }
}

/// Puts tag `t` into the key-ordered `sorted`: after every tag whose key is
/// not greater than its own.
pub open spec fn insert_tag(sorted: Seq<(String, String)>, t: (String, String)) -> Seq<
    (String, String),
>
    decreases sorted.len(),
{
    if sorted.len() == 0 {
        seq![t]
    } else if text_less(t.0@, sorted.last().0@) {
        insert_tag(sorted.drop_last(), t).push(sorted.last())
    } else {
        sorted.push(t)
    }
}

/// The tags in ascending order of key; tags with equal keys keep their
/// order (a stable sort).
pub open spec fn sort_tags(tags: Seq<(String, String)>) -> Seq<(String, String)>
    decreases tags.len(),
{
    if tags.len() == 0 {
        Seq::empty()
    } else {
        insert_tag(sort_tags(tags.drop_last()), tags.last())
    }
}

/// The tag segment: `,key=escaped value` for each tag, in the given order.
pub open spec fn tags_text(tags: Seq<(String, String)>) -> Seq<char>
    decreases tags.len(),
{
    if tags.len() == 0 {
        Seq::empty()
    } else {
        tags_text(tags.drop_last()) + seq![','] + tags.last().0@ + seq!['='] + escape(
            tags.last().1@,
        )
    }
}

/// The group of a metric: its measurement and its rendered, sorted tags.
pub open spec fn group_of(m: Metric) -> (Seq<char>, Seq<char>) {
    (measurement_of(m.name@), tags_text(sort_tags(m.tags@)))
}

/// `field=value` of a metric.
pub open spec fn field_assignment(m: Metric) -> Seq<char> {
    field_of(m.name@) + seq!['='] + m.value@
}

/// `,host=`
pub open spec fn host_label() -> Seq<char> {
    seq![',', 'h', 'o', 's', 't', '=']
}

/// The start of a line: `measurement,tags,host=<host> field=value`.
pub open spec fn line_head(m: Metric, host: Seq<char>) -> Seq<char> {
    group_of(m).0 + group_of(m).1 + host_label() + host + seq![' '] + field_assignment(m)
}

/// The lines without their timestamps: a metric of the same group as the
/// metric just before it adds `,field=value` to the current line; any other
/// metric starts a line of its own.
pub open spec fn line_bodies(ms: Seq<Metric>, host: Seq<char>) -> Seq<Seq<char>>
    decreases ms.len(),
{
    if ms.len() == 0 {
        Seq::empty()
    } else {
        let prev = line_bodies(ms.drop_last(), host);
        if ms.len() >= 2 && group_of(ms[ms.len() - 2]) == group_of(ms.last()) {
            prev.update(prev.len() - 1, prev.last() + seq![','] + field_assignment(ms.last()))
        } else {
            prev.push(line_head(ms.last(), host))
        }
    }
}

/// The lines joined by newlines, with none after the last.
pub open spec fn join_lines(lines: Seq<Seq<char>>) -> Seq<char>
    decreases lines.len(),
{
    if lines.len() == 0 {
        Seq::empty()
    } else if lines.len() == 1 {
        lines[0]
    } else {
        join_lines(lines.drop_last()) + seq!['\n'] + lines.last()
    }
}

/// A line body closed by a space and the timestamp.
pub open spec fn stamped(body: Seq<char>, timestamp: u64) -> Seq<char> {
    body + seq![' '] + decimal(timestamp as nat)
}

/// Every line body closed by the timestamp.
pub open spec fn stamp_all(bodies: Seq<Seq<char>>, timestamp: u64) -> Seq<Seq<char>> {
    bodies.map_values(|b: Seq<char>| stamped(b, timestamp))
}

/// The encoded text of a scrape.
pub open spec fn encoding(ms: Seq<Metric>, host: Seq<char>, timestamp: u64) -> Seq<char> {
    join_lines(stamp_all(line_bodies(ms, host), timestamp))
}

/// Escaping goes character by character: the escape of two texts side by
/// side is their escapes side by side.
pub proof fn lemma_escape_concat(a: Seq<char>, b: Seq<char>)
    ensures
        escape(a + b) == escape(a) + escape(b),
    decreases b.len(),
{
    if b.len() == 0 {
        assert(a + b =~= a);
        assert(escape(a) + escape(b) =~= escape(a));
    } else {
        assert((a + b).drop_last() =~= a + b.drop_last());
        assert((a + b).last() == b.last());
        lemma_escape_concat(a, b.drop_last());
        if needs_escape(b.last()) {
            assert(escape(a + b) =~= escape(a) + escape(b));
        } else {
            assert(escape(a + b) =~= escape(a) + escape(b));
        }
    }
}

/// A space in a tag value renders as a backslash followed by the space,
/// wherever it stands; the text around it is escaped as it would be alone.
pub proof fn lemma_space_in_tag_value_is_escaped(before: Seq<char>, after: Seq<char>)
    ensures
        escape(before + seq![' '] + after) == escape(before) + seq!['\\', ' '] + escape(after),
{
    lemma_escape_concat(before + seq![' '], after);
    lemma_escape_concat(before, seq![' ']);
    assert(seq![' '].drop_last() =~= Seq::<char>::empty());
    assert(escape(Seq::<char>::empty()) == Seq::<char>::empty());
    assert(escape(seq![' ']) =~= seq!['\\', ' ']);
}

proof fn lemma_bodies_nonempty(ms: Seq<Metric>, host: Seq<char>)
    requires
        ms.len() > 0,
    ensures
        line_bodies(ms, host).len() > 0,
    decreases ms.len(),
{
    if ms.len() >= 2 {
        lemma_bodies_nonempty(ms.drop_last(), host);
    }
}

/// How often the group changes from one metric to the next.
pub open spec fn group_changes(ms: Seq<Metric>) -> nat
    decreases ms.len(),
{
    if ms.len() < 2 {
        0
    } else if group_of(ms[ms.len() - 2]) == group_of(ms.last()) {
        group_changes(ms.drop_last())
    } else {
        group_changes(ms.drop_last()) + 1
    }
}

/// Each run of adjacent metrics of one group gives exactly one line: a group
/// that comes back after another one starts a new line rather than joining
/// its earlier one.
pub proof fn lemma_one_line_per_run(ms: Seq<Metric>, host: Seq<char>)
    requires
        ms.len() > 0,
    ensures
        line_bodies(ms, host).len() == group_changes(ms) + 1,
    decreases ms.len(),
{
    if ms.len() == 1 {
        assert(line_bodies(ms.drop_last(), host).len() == 0);
    } else {
        lemma_one_line_per_run(ms.drop_last(), host);
        let prev = line_bodies(ms.drop_last(), host);
        if group_of(ms[ms.len() - 2]) == group_of(ms.last()) {
            assert(line_bodies(ms, host) == prev.update(
                prev.len() - 1,
                prev.last() + seq![','] + field_assignment(ms.last()),
            ));
        } else {
            assert(line_bodies(ms, host) == prev.push(line_head(ms.last(), host)));
        }
    }
}

/// How many newlines a text holds.
pub open spec fn newline_count(s: Seq<char>) -> nat
    decreases s.len(),
{
    if s.len() == 0 {
        0
    } else if s.last() == '\n' {
        newline_count(s.drop_last()) + 1
    } else {
        newline_count(s.drop_last())
    }
}

/// Every tag of `tags` is free of newlines.
pub open spec fn tags_have_no_newline(tags: Seq<(String, String)>) -> bool {
    &&& forall|j: int| 0 <= j < tags.len() ==> newline_count(#[trigger] tags[j].0@) == 0
    &&& forall|j: int| 0 <= j < tags.len() ==> newline_count(#[trigger] tags[j].1@) == 0
}

/// No name, value, tag key or tag value of the metric holds a newline.
pub open spec fn metric_has_no_newline(m: Metric) -> bool {
    &&& newline_count(m.name@) == 0
    &&& newline_count(m.value@) == 0
    &&& tags_have_no_newline(m.tags@)
}

proof fn lemma_newline_count_concat(a: Seq<char>, b: Seq<char>)
    ensures
        newline_count(a + b) == newline_count(a) + newline_count(b),
    decreases b.len(),
{
    if b.len() == 0 {
        assert(a + b =~= a);
    } else {
        assert((a + b).drop_last() =~= a + b.drop_last());
        assert((a + b).last() == b.last());
        lemma_newline_count_concat(a, b.drop_last());
    }
}

proof fn lemma_no_newline_chars(s: Seq<char>)
    requires
        forall|i: int| 0 <= i < s.len() ==> s[i] != '\n',
    ensures
        newline_count(s) == 0,
    decreases s.len(),
{
    if s.len() > 0 {
        lemma_no_newline_chars(s.drop_last());
    }
}

proof fn lemma_escape_keeps_newlines(v: Seq<char>)
    ensures
        newline_count(escape(v)) == newline_count(v),
    decreases v.len(),
{
    if v.len() > 0 {
        lemma_escape_keeps_newlines(v.drop_last());
        let c = v.last();
        let front = escape(v.drop_last());
        if needs_escape(c) {
            assert(escape(v) == front + seq!['\\', c]);
            lemma_newline_count_concat(front, seq!['\\', c]);
            lemma_no_newline_chars(seq!['\\', c]);
        } else {
            assert(escape(v) == front.push(c));
            assert(front.push(c).drop_last() =~= front);
            assert(front.push(c).last() == c);
        }
    }
}

proof fn lemma_decimal_has_no_newline(n: nat)
    ensures
        newline_count(decimal(n)) == 0,
    decreases n,
{
    let d = digit_char(n % 10);
    assert(d != '\n');
    if n >= 10 {
        lemma_decimal_has_no_newline(n / 10);
        assert(decimal(n).drop_last() =~= decimal(n / 10));
        assert(decimal(n).last() == d);
    } else {
        assert(n % 10 == n);
        assert(decimal(n) == seq![d]);
        lemma_no_newline_chars(seq![d]);
    }
}

proof fn lemma_first_separator(name: Seq<char>, i: int)
    requires
        0 <= i < name.len(),
        name[i] == '_',
    ensures
        exists|k: int|
            0 <= k < name.len() && name[k] == '_' && forall|j: int| 0 <= j < k ==> name[j] != '_',
    decreases i,
{
    if exists|j: int| 0 <= j < i && name[j] == '_' {
        let j = choose|j: int| 0 <= j < i && name[j] == '_';
        lemma_first_separator(name, j);
    } else {
        assert(forall|j: int| 0 <= j < i ==> name[j] != '_');
    }
}

proof fn lemma_name_parts_have_no_newline(name: Seq<char>)
    requires
        newline_count(name) == 0,
    ensures
        newline_count(measurement_of(name)) == 0,
        newline_count(field_of(name)) == 0,
{
    if has_separator(name) {
        let i = choose|i: int| 0 <= i < name.len() && name[i] == '_';
        lemma_first_separator(name, i);
        let k = separator_index(name);
        assert(name =~= name.take(k) + name.skip(k));
        lemma_newline_count_concat(name.take(k), name.skip(k));
        assert(name.skip(k) =~= seq!['_'] + name.skip(k + 1));
        lemma_newline_count_concat(seq!['_'], name.skip(k + 1));
    } else {
        lemma_no_newline_chars(seq!['v', 'a', 'l', 'u', 'e']);
    }
}

proof fn lemma_tags_text_has_no_newline(tags: Seq<(String, String)>)
    requires
        tags_have_no_newline(tags),
    ensures
        newline_count(tags_text(tags)) == 0,
    decreases tags.len(),
{
    if tags.len() > 0 {
        let front = tags.drop_last();
        assert(tags_have_no_newline(front)) by {
            assert forall|j: int| 0 <= j < front.len() implies newline_count(
                #[trigger] front[j].0@,
            ) == 0 by {
                assert(front[j] == tags[j]);
            }
            assert forall|j: int| 0 <= j < front.len() implies newline_count(
                #[trigger] front[j].1@,
            ) == 0 by {
                assert(front[j] == tags[j]);
            }
        }
        lemma_tags_text_has_no_newline(front);
        let t = tags.last();
        assert(t == tags[tags.len() - 1]);
        assert(newline_count(t.0@) == 0);
        assert(newline_count(t.1@) == 0);
        lemma_escape_keeps_newlines(t.1@);
        lemma_no_newline_chars(seq![',']);
        lemma_no_newline_chars(seq!['=']);
        lemma_newline_count_concat(tags_text(front), seq![',']);
        lemma_newline_count_concat(tags_text(front) + seq![','], t.0@);
        lemma_newline_count_concat(tags_text(front) + seq![','] + t.0@, seq!['=']);
        lemma_newline_count_concat(tags_text(front) + seq![','] + t.0@ + seq!['='], escape(t.1@));
    }
}

proof fn lemma_sorted_tags_have_no_newline(tags: Seq<(String, String)>)
    requires
        tags_have_no_newline(tags),
    ensures
        tags_have_no_newline(sort_tags(tags)),
{
    lemma_sorted_tags_ascend(tags);
    let sorted = sort_tags(tags);
    assert forall|j: int| 0 <= j < sorted.len() implies exists|k: int|
        0 <= k < tags.len() && tags[k] == #[trigger] sorted[j] by {
        let x = sorted[j];
        assert(sorted.contains(x));
        vstd::seq_lib::to_multiset_contains(sorted, x);
        vstd::seq_lib::to_multiset_contains(tags, x);
    }
    assert forall|j: int| 0 <= j < sorted.len() implies newline_count(#[trigger] sorted[j].0@)
        == 0 by {
        let k = choose|k: int| 0 <= k < tags.len() && tags[k] == sorted[j];
        assert(newline_count(tags[k].0@) == 0);
    }
    assert forall|j: int| 0 <= j < sorted.len() implies newline_count(#[trigger] sorted[j].1@)
        == 0 by {
        let k = choose|k: int| 0 <= k < tags.len() && tags[k] == sorted[j];
        assert(newline_count(tags[k].1@) == 0);
    }
}

proof fn lemma_line_head_has_no_newline(m: Metric, host: Seq<char>)
    requires
        metric_has_no_newline(m),
        newline_count(host) == 0,
    ensures
        newline_count(line_head(m, host)) == 0,
        newline_count(field_assignment(m)) == 0,
{
    lemma_name_parts_have_no_newline(m.name@);
    lemma_sorted_tags_have_no_newline(m.tags@);
    lemma_tags_text_has_no_newline(sort_tags(m.tags@));
    lemma_no_newline_chars(seq!['=']);
    lemma_no_newline_chars(seq![' ']);
    lemma_no_newline_chars(host_label());
    let (meas, tags) = group_of(m);
    lemma_newline_count_concat(field_of(m.name@), seq!['=']);
    lemma_newline_count_concat(field_of(m.name@) + seq!['='], m.value@);
    lemma_newline_count_concat(meas, tags);
    lemma_newline_count_concat(meas + tags, host_label());
    lemma_newline_count_concat(meas + tags + host_label(), host);
    lemma_newline_count_concat(meas + tags + host_label() + host, seq![' ']);
    lemma_newline_count_concat(meas + tags + host_label() + host + seq![' '], field_assignment(m));
}

proof fn lemma_bodies_have_no_newline(ms: Seq<Metric>, host: Seq<char>)
    requires
        newline_count(host) == 0,
        forall|i: int| 0 <= i < ms.len() ==> metric_has_no_newline(#[trigger] ms[i]),
    ensures
        forall|i: int|
            0 <= i < line_bodies(ms, host).len() ==> newline_count(
                #[trigger] line_bodies(ms, host)[i],
            ) == 0,
    decreases ms.len(),
{
    if ms.len() > 0 {
        let front = ms.drop_last();
        assert forall|i: int| 0 <= i < front.len() implies metric_has_no_newline(
            #[trigger] front[i],
        ) by {
            assert(front[i] == ms[i]);
        }
        lemma_bodies_have_no_newline(front, host);
        let prev = line_bodies(front, host);
        let m = ms.last();
        assert(metric_has_no_newline(m)) by {
            assert(m == ms[ms.len() - 1]);
        }
        lemma_line_head_has_no_newline(m, host);
        if ms.len() >= 2 && group_of(ms[ms.len() - 2]) == group_of(m) {
            lemma_bodies_nonempty(front, host);
            let extended = prev.last() + seq![','] + field_assignment(m);
            lemma_no_newline_chars(seq![',']);
            lemma_newline_count_concat(prev.last(), seq![',']);
            lemma_newline_count_concat(prev.last() + seq![','], field_assignment(m));
            assert(newline_count(prev[prev.len() - 1]) == 0);
            assert(line_bodies(ms, host) == prev.update(prev.len() - 1, extended));
        } else {
            assert(line_bodies(ms, host) == prev.push(line_head(m, host)));
        }
    }
}

proof fn lemma_join_counts_separators(lines: Seq<Seq<char>>)
    requires
        lines.len() > 0,
        forall|i: int| 0 <= i < lines.len() ==> newline_count(#[trigger] lines[i]) == 0,
    ensures
        newline_count(join_lines(lines)) == lines.len() - 1,
    decreases lines.len(),
{
    if lines.len() > 1 {
        let front = lines.drop_last();
        assert forall|i: int| 0 <= i < front.len() implies newline_count(#[trigger] front[i]) == 0 by {
            assert(front[i] == lines[i]);
        }
        lemma_join_counts_separators(front);
        assert(newline_count(seq!['\n']) == 1) by {
            assert(seq!['\n'].drop_last() =~= Seq::<char>::empty());
            assert(seq!['\n'].last() == '\n');
            assert(newline_count(Seq::<char>::empty()) == 0);
        }
        assert(newline_count(lines.last()) == 0) by {
            assert(lines.last() == lines[lines.len() - 1]);
        }
        lemma_newline_count_concat(join_lines(front), seq!['\n']);
        lemma_newline_count_concat(join_lines(front) + seq!['\n'], lines.last());
    }
}

/// Where no name, value or tag of a metric and not the host holds a
/// newline, the encoded text has one newline between each two runs of
/// adjacent metrics of one group: it splits into exactly one line per run,
/// and a group that comes back after another one is never merged into its
/// earlier line.
pub proof fn lemma_newlines_separate_runs(ms: Seq<Metric>, host: Seq<char>, timestamp: u64)
    requires
        ms.len() > 0,
        newline_count(host) == 0,
        forall|i: int| 0 <= i < ms.len() ==> metric_has_no_newline(#[trigger] ms[i]),
    ensures
        newline_count(encoding(ms, host, timestamp)) == group_changes(ms),
{
    let bodies = line_bodies(ms, host);
    lemma_one_line_per_run(ms, host);
    lemma_bodies_have_no_newline(ms, host);
    let lines = stamp_all(bodies, timestamp);
    assert forall|i: int| 0 <= i < lines.len() implies newline_count(#[trigger] lines[i]) == 0 by {
        let b = bodies[i];
        assert(lines[i] == stamped(b, timestamp));
        lemma_decimal_has_no_newline(timestamp as nat);
        lemma_no_newline_chars(seq![' ']);
        lemma_newline_count_concat(b, seq![' ']);
        lemma_newline_count_concat(b + seq![' '], decimal(timestamp as nat));
    }
    lemma_join_counts_separators(lines);
}

proof fn lemma_insert_tag_at(sorted: Seq<(String, String)>, t: (String, String), p: int)
    requires
        0 <= p <= sorted.len(),
        forall|j: int| p <= j < sorted.len() ==> text_less(t.0@, #[trigger] sorted[j].0@),
        p > 0 ==> !text_less(t.0@, sorted[p - 1].0@),
    ensures
        insert_tag(sorted, t) == sorted.insert(p, t),
    decreases sorted.len(),
{
    if sorted.len() == 0 {
        assert(insert_tag(sorted, t) =~= sorted.insert(p, t));
    } else if p == sorted.len() {
        assert(insert_tag(sorted, t) =~= sorted.insert(p, t));
    } else {
        assert(text_less(t.0@, sorted[sorted.len() - 1].0@));
        let front = sorted.drop_last();
        assert forall|j: int| p <= j < front.len() implies text_less(
            t.0@,
            #[trigger] front[j].0@,
        ) by {
            assert(front[j] == sorted[j]);
        }
        lemma_insert_tag_at(front, t, p);
        assert(insert_tag(sorted, t) =~= sorted.insert(p, t));
    }
}

/// No tag's key is below the key of the tag before it.
pub open spec fn keys_ascending(tags: Seq<(String, String)>) -> bool {
    forall|i: int| 0 < i < tags.len() ==> !text_less(#[trigger] tags[i].0@, tags[i - 1].0@)
}

proof fn lemma_text_less_asymmetric(a: Seq<char>, b: Seq<char>)
    ensures
        text_less(a, b) ==> !text_less(b, a),
    decreases a.len(),
{
    if a.len() > 0 && b.len() > 0 && a[0] == b[0] {
        lemma_text_less_asymmetric(a.drop_first(), b.drop_first());
    }
}

proof fn lemma_insert_tag_shape(sorted: Seq<(String, String)>, t: (String, String))
    ensures
        insert_tag(sorted, t).len() == sorted.len() + 1,
        insert_tag(sorted, t).last() == t || (sorted.len() > 0 && insert_tag(sorted, t).last()
            == sorted.last()),
    decreases sorted.len(),
{
    if sorted.len() > 0 && text_less(t.0@, sorted.last().0@) {
        lemma_insert_tag_shape(sorted.drop_last(), t);
    }
}

proof fn lemma_push_ascending(r: Seq<(String, String)>, x: (String, String))
    requires
        keys_ascending(r),
        r.len() > 0 ==> !text_less(x.0@, r.last().0@),
    ensures
        keys_ascending(r.push(x)),
{
    assert forall|i: int| 0 < i < r.push(x).len() implies !text_less(
        #[trigger] r.push(x)[i].0@,
        r.push(x)[i - 1].0@,
    ) by {
        if i < r.len() {
            assert(r.push(x)[i] == r[i]);
            assert(r.push(x)[i - 1] == r[i - 1]);
        } else {
            assert(r.push(x)[i] == x);
            assert(r.push(x)[i - 1] == r.last());
        }
    }
}

proof fn lemma_insert_tag_ascending(sorted: Seq<(String, String)>, t: (String, String))
    requires
        keys_ascending(sorted),
    ensures
        keys_ascending(insert_tag(sorted, t)),
    decreases sorted.len(),
{
    if sorted.len() == 0 {
        assert(insert_tag(sorted, t) == seq![t]);
    } else if text_less(t.0@, sorted.last().0@) {
        let front = sorted.drop_last();
        let last = sorted.last();
        assert(keys_ascending(front)) by {
            assert forall|i: int| 0 < i < front.len() implies !text_less(
                #[trigger] front[i].0@,
                front[i - 1].0@,
            ) by {
                assert(front[i] == sorted[i] && front[i - 1] == sorted[i - 1]);
            }
        }
        lemma_insert_tag_ascending(front, t);
        lemma_insert_tag_shape(front, t);
        let r = insert_tag(front, t);
        lemma_text_less_asymmetric(t.0@, last.0@);
        if r.last() != t {
            assert(r.last() == front.last());
            assert(front.last() == sorted[sorted.len() - 2]);
            assert(!text_less(sorted[sorted.len() - 1].0@, sorted[sorted.len() - 2].0@));
        }
        lemma_push_ascending(r, last);
        assert(insert_tag(sorted, t) == r.push(last));
    } else {
        lemma_push_ascending(sorted, t);
        assert(insert_tag(sorted, t) == sorted.push(t));
    }
}

proof fn lemma_insert_tag_multiset(sorted: Seq<(String, String)>, t: (String, String))
    ensures
        insert_tag(sorted, t).to_multiset() == sorted.to_multiset().insert(t),
    decreases sorted.len(),
{
    if sorted.len() == 0 {
        assert(insert_tag(sorted, t) =~= sorted.push(t));
        vstd::seq_lib::to_multiset_build(sorted, t);
    } else if text_less(t.0@, sorted.last().0@) {
        let front = sorted.drop_last();
        lemma_insert_tag_multiset(front, t);
        assert(sorted =~= front.push(sorted.last()));
        vstd::seq_lib::to_multiset_build(front, sorted.last());
        vstd::seq_lib::to_multiset_build(insert_tag(front, t), sorted.last());
        assert(insert_tag(sorted, t).to_multiset() =~= sorted.to_multiset().insert(t));
    } else {
        vstd::seq_lib::to_multiset_build(sorted, t);
    }
}

/// The tags of a line are the metric's tags, each once, in ascending order
/// of key.
pub proof fn lemma_sorted_tags_ascend(tags: Seq<(String, String)>)
    ensures
        keys_ascending(sort_tags(tags)),
        sort_tags(tags).to_multiset() == tags.to_multiset(),
        sort_tags(tags).len() == tags.len(),
    decreases tags.len(),
{
    if tags.len() > 0 {
        lemma_sorted_tags_ascend(tags.drop_last());
        lemma_insert_tag_ascending(sort_tags(tags.drop_last()), tags.last());
        lemma_insert_tag_shape(sort_tags(tags.drop_last()), tags.last());
        lemma_insert_tag_multiset(sort_tags(tags.drop_last()), tags.last());
        assert(tags =~= tags.drop_last().push(tags.last()));
        vstd::seq_lib::to_multiset_build(tags.drop_last(), tags.last());
    } else {
        assert(sort_tags(tags) =~= tags);
    }
}

/// Whether two character vectors hold the same text.
fn same_chars(a: &Vec<char>, b: &Vec<char>) -> (r: bool)
    ensures
        r == (a@ == b@),
{
    if a.len() != b.len() {
        return false;
    }
    let mut i: usize = 0;
    while i < a.len()
        invariant
            a@.len() == b@.len(),
            i <= a@.len(),
            forall|j: int| 0 <= j < i ==> a@[j] == b@[j],
        decreases a@.len() - i,
    {
        if a[i] != b[i] {
            return false;
        }
        i = i + 1;
    }
    assert(a@ =~= b@);
    true
}

/// Compares two keys in the order of `text_less`.
fn key_less(a: &str, b: &str) -> (r: bool)
    ensures
        r == text_less(a@, b@),
{
    let x = chars_of(a);
    let y = chars_of(b);
    let mut i: usize = 0;
    proof {
        assert(x@.skip(0) =~= x@);
        assert(y@.skip(0) =~= y@);
    }
    while i < x.len() && i < y.len() && x[i] == y[i]
        invariant
            i <= x@.len(),
            i <= y@.len(),
            text_less(x@, y@) == text_less(x@.skip(i as int), y@.skip(i as int)),
        decreases x@.len() - i,
    {
        proof {
            assert(x@.skip(i as int).drop_first() =~= x@.skip(i + 1));
            assert(y@.skip(i as int).drop_first() =~= y@.skip(i + 1));
        }
        i = i + 1;
    }
    proof {
        if i < x@.len() {
            assert(x@.skip(i as int)[0] == x@[i as int]);
        }
        if i < y@.len() {
            assert(y@.skip(i as int)[0] == y@[i as int]);
        }
    }
    if i == x.len() {
        i < y.len()
    } else if i == y.len() {
        false
    } else {
        x[i] < y[i]
    }
}

/// Splits a metric name into its measurement and its field.
fn split_name(name: &str) -> (r: (Vec<char>, Vec<char>))
    ensures
        r.0@ == measurement_of(name@),
        r.1@ == field_of(name@),
{
    let cs = chars_of(name);
    let mut i: usize = 0;
    while i < cs.len() && cs[i] != '_'
        invariant
            i <= cs@.len(),
            cs@ == name@,
            forall|j: int| 0 <= j < i ==> cs@[j] != '_',
        decreases cs@.len() - i,
    {
        i = i + 1;
    }
    if i == cs.len() {
        let mut field: Vec<char> = Vec::new();
        field.push('v');
        field.push('a');
        field.push('l');
        field.push('u');
        field.push('e');
        proof {
            assert(!has_separator(name@));
            assert(field@ =~= seq!['v', 'a', 'l', 'u', 'e']);
        }
        (cs, field)
    } else {
        proof {
            assert(has_separator(name@));
            let k = separator_index(name@);
            assert(k == i) by {
                if k < i {
                    assert(cs@[k] != '_');
                }
                if k > i {
                    assert(name@[i as int] != '_');
                }
            }
        }
        let measurement = copy_range(&cs, 0, i);
        let field = copy_range(&cs, i + 1, cs.len());
        proof {
            assert(measurement@ =~= name@.take(i as int));
            assert(field@ =~= name@.skip(i + 1));
        }
        (measurement, field)
    }
}

/// Appends `v` escaped to `out`.
fn push_escaped(out: &mut Vec<char>, v: &str)
    ensures
        final(out)@ == old(out)@ + escape(v@),
{
    let cs = chars_of(v);
    let ghost start = out@;
    let mut i: usize = 0;
    while i < cs.len()
        invariant
            i <= cs@.len(),
            cs@ == v@,
            out@ == start + escape(cs@.take(i as int)),
        decreases cs@.len() - i,
    {
        let c = cs[i];
        proof {
            assert(cs@.take(i + 1).drop_last() =~= cs@.take(i as int));
        }
        if c == '\\' || c == ' ' || c == ',' || c == '=' {
            out.push('\\');
        }
        out.push(c);
        proof {
            assert(out@ =~= start + escape(cs@.take(i + 1)));
        }
        i = i + 1;
    }
    proof {
        assert(cs@.take(cs@.len() as int) =~= cs@);
    }
}

/// Escapes a tag value: each backslash, space, comma and equals sign gets a
/// backslash before it.
pub fn escape_tag_value(value: &str) -> (r: String)
    ensures
        r@ == escape(value@),
{
    let mut out: Vec<char> = Vec::new();
    push_escaped(&mut out, value);
    string_from_chars(&out)
}

/// The tags ordered by key, stably.
fn sorted_tags(tags: &Vec<(String, String)>) -> (r: Vec<(String, String)>)
    ensures
        r@ == sort_tags(tags@),
{
    let mut r: Vec<(String, String)> = Vec::new();
    let mut i: usize = 0;
    while i < tags.len()
        invariant
            i <= tags@.len(),
            r@ == sort_tags(tags@.take(i as int)),
        decreases tags@.len() - i,
    {
        let t = (tags[i].0.clone(), tags[i].1.clone());
        let mut p: usize = r.len();
        while p > 0 && key_less(t.0.as_str(), r[p - 1].0.as_str())
            invariant
                p <= r@.len(),
                forall|j: int| p <= j < r@.len() ==> text_less(t.0@, #[trigger] r@[j].0@),
            decreases p,
        {
            p = p - 1;
        }
        proof {
            assert(tags@.take(i + 1).drop_last() =~= tags@.take(i as int));
            assert(t == tags@[i as int]);
            lemma_insert_tag_at(r@, t, p as int);
        }
        r.insert(p, t);
        i = i + 1;
    }
    proof {
        assert(tags@.take(tags@.len() as int) =~= tags@);
    }
    r
}

/// Appends the tag segment of the tags, in their order, to `out`.
fn push_tags(out: &mut Vec<char>, tags: &Vec<(String, String)>)
    ensures
        final(out)@ == old(out)@ + tags_text(tags@),
{
    let ghost start = out@;
    let mut i: usize = 0;
    while i < tags.len()
        invariant
            i <= tags@.len(),
            out@ == start + tags_text(tags@.take(i as int)),
        decreases tags@.len() - i,
    {
        proof {
            assert(tags@.take(i + 1).drop_last() =~= tags@.take(i as int));
        }
        out.push(',');
        crate::text::push_str(out, tags[i].0.as_str());
        out.push('=');
        push_escaped(out, tags[i].1.as_str());
        proof {
            assert(out@ =~= start + tags_text(tags@.take(i + 1)));
        }
        i = i + 1;
    }
    proof {
        assert(tags@.take(tags@.len() as int) =~= tags@);
    }
}

/// The group of a metric, rendered: its measurement and its tag segment.
fn group_parts(m: &Metric) -> (r: (Vec<char>, Vec<char>, Vec<char>))
    ensures
        (r.0@, r.2@) == group_of(*m),
        r.1@ == field_of(m.name@),
{
    let (measurement, field) = split_name(m.name.as_str());
    let sorted = sorted_tags(&m.tags);
    let mut tags: Vec<char> = Vec::new();
    push_tags(&mut tags, &sorted);
    proof {
        assert(tags@ =~= tags_text(sort_tags(m.tags@)));
    }
    (measurement, field, tags)
}

/// Appends `field=value` to `out`.
fn push_assignment(out: &mut Vec<char>, field: &Vec<char>, value: &str)
    ensures
        final(out)@ == old(out)@ + field@ + seq!['='] + value@,
{
    let ghost start = out@;
    let mut f = field.clone();
    out.append(&mut f);
    out.push('=');
    crate::text::push_str(out, value);
    proof {
        assert(out@ =~= start + field@ + seq!['='] + value@);
    }
}

/// Closes a line: appends a space and the timestamp.
fn push_stamp(out: &mut Vec<char>, timestamp: u64)
    ensures
        final(out)@ == old(out)@ + seq![' '] + decimal(timestamp as nat),
{
    let ghost start = out@;
    out.push(' ');
    push_decimal(out, timestamp as u128);
    proof {
        assert(out@ =~= start + seq![' '] + decimal(timestamp as nat));
    }
}

/// A new line: `measurement,tags,host=<hostname> field=value`.
fn start_line(
    measurement: &Vec<char>,
    tags: &Vec<char>,
    field: &Vec<char>,
    hostname: &str,
    value: &str,
) -> (r: Vec<char>)
    ensures
        r@ == measurement@ + tags@ + host_label() + hostname@ + seq![' '] + field@ + seq!['=']
            + value@,
{
    let mut line = measurement.clone();
    let mut tag_text = tags.clone();
    line.append(&mut tag_text);
    line.push(',');
    line.push('h');
    line.push('o');
    line.push('s');
    line.push('t');
    line.push('=');
    crate::text::push_str(&mut line, hostname);
    line.push(' ');
    let ghost before = line@;
    push_assignment(&mut line, field, value);
    proof {
        assert(line@ =~= measurement@ + tags@ + host_label() + hostname@ + seq![' '] + field@
            + seq!['='] + value@);
    }
    line
}

proof fn lemma_close_line(done: Seq<Seq<char>>, body: Seq<char>, timestamp: u64)
    ensures
        join_lines(stamp_all(done.push(body), timestamp)) == if done.len() == 0 {
            stamped(body, timestamp)
        } else {
            join_lines(stamp_all(done, timestamp)) + seq!['\n'] + stamped(body, timestamp)
        },
{
    let all = stamp_all(done.push(body), timestamp);
    assert(all.drop_last() =~= stamp_all(done, timestamp));
    assert(all.last() == stamped(body, timestamp));
}

/// Encodes the metrics of one scrape: each maximal run of adjacent metrics
/// of one group (measurement and sorted tags) becomes a line
/// `measurement,tags,host=<hostname> field=value,... <timestamp>`; the lines
/// are joined by newlines. No metrics give the empty text.
pub fn format_metrics(metrics: &[Metric], hostname: &str, timestamp: u64) -> (r: String)
    ensures
        r@ == encoding(metrics@, hostname@, timestamp),
{
    let ghost ms = metrics@;
    let ghost host = hostname@;
    let mut out: Vec<char> = Vec::new();
    if metrics.len() == 0 {
        proof {
            assert(out@ =~= encoding(ms, host, timestamp));
        }
        return string_from_chars(&out);
    }
    let ghost mut done: Seq<Seq<char>> = Seq::empty();
    let (m0, f0, t0) = group_parts(&metrics[0]);
    let mut line = start_line(&m0, &t0, &f0, hostname, metrics[0].value.as_str());
    let mut last_measurement = m0;
    let mut last_tags = t0;
    let mut any_closed = false;
    proof {
        assert(line@ =~= line_head(ms[0], host));
        assert(ms.take(1).drop_last() =~= Seq::<Metric>::empty());
        assert(ms.take(1).last() == ms[0]);
        assert(line_bodies(Seq::<Metric>::empty(), host) =~= Seq::<Seq<char>>::empty());
        assert(line_bodies(ms.take(1), host) =~= done.push(line@));
        assert(out@ =~= join_lines(stamp_all(done, timestamp)));
    }
    let mut i: usize = 1;
    while i < metrics.len()
        invariant
            1 <= i <= ms.len(),
            ms == metrics@,
            host == hostname@,
            line_bodies(ms.take(i as int), host) == done.push(line@),
            out@ == join_lines(stamp_all(done, timestamp)),
            (last_measurement@, last_tags@) == group_of(ms[i - 1]),
            any_closed == (done.len() > 0),
        decreases ms.len() - i,
    {
        let (m, f, t) = group_parts(&metrics[i]);
        proof {
            assert(ms.take(i + 1).drop_last() =~= ms.take(i as int));
            assert(ms.take(i + 1)[i - 1] == ms[i - 1]);
            assert(ms.take(i + 1).last() == ms[i as int]);
            lemma_bodies_nonempty(ms.take(i as int), host);
        }
        if same_chars(&m, &last_measurement) && same_chars(&t, &last_tags) {
            let ghost before = line@;
            line.push(',');
            push_assignment(&mut line, &f, metrics[i].value.as_str());
            proof {
                assert(group_of(ms[i - 1]) == group_of(ms[i as int]));
                assert(line@ =~= before + seq![','] + field_assignment(ms[i as int]));
                assert(line_bodies(ms.take(i + 1), host) =~= done.push(line@));
            }
        } else {
            let ghost body = line@;
            if any_closed {
                out.push('\n');
            }
            push_stamp(&mut line, timestamp);
            let mut closed = line;
            out.append(&mut closed);
            proof {
                lemma_close_line(done, body, timestamp);
                assert(out@ =~= join_lines(stamp_all(done.push(body), timestamp)));
                done = done.push(body);
            }
            any_closed = true;
            line = start_line(&m, &t, &f, hostname, metrics[i].value.as_str());
            proof {
                assert(line@ =~= line_head(ms[i as int], host));
                assert(line_bodies(ms.take(i + 1), host) =~= done.push(line@));
            }
            last_measurement = m;
            last_tags = t;
        }
        i = i + 1;
    }
    let ghost body = line@;
    if any_closed {
        out.push('\n');
    }
    push_stamp(&mut line, timestamp);
    let mut closed = line;
    out.append(&mut closed);
    proof {
        lemma_close_line(done, body, timestamp);
        assert(ms.take(ms.len() as int) =~= ms);
        assert(out@ =~= encoding(ms, host, timestamp));
    }
    string_from_chars(&out)
}

} // verus!
