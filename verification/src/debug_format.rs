//! Rendering of runtime span measurements as grouped, color-coded console
//! lines: spans named `root::child` are grouped under `root`, the slowest
//! groups come first, and each line shows the last and average duration.
use vstd::prelude::*;

use crate::strutil::{cut, pad_left, pad_right, push_char, u64_to_string};

verus! {

/// A `::` separator starts at position `i`.
pub open spec fn sep_at(s: Seq<char>, i: int) -> bool {
    i + 2 <= s.len() && s[i] == ':' && s[i + 1] == ':'
}

/// The position of the first `::` separator at or after `j`, or the
/// name's length if there is none.
pub open spec fn spec_first_sep(s: Seq<char>, j: int) -> int
    decreases s.len() - j,
{
    if j < 0 || j + 2 > s.len() {
        s.len() as int
    } else if sep_at(s, j) {
        j
    } else {
        spec_first_sep(s, j + 1)
    }
}

/// The group name of a span: everything before the first `::`, or the
/// whole name if there is none.
pub open spec fn spec_root_of(s: Seq<char>) -> Seq<char> {
    s.take(spec_first_sep(s, 0))
}

proof fn lemma_first_sep_found(s: Seq<char>, j: int, i: int)
    requires
        0 <= j <= i,
        sep_at(s, i),
        forall|t: int| j <= t < i ==> !sep_at(s, t),
    ensures
        spec_first_sep(s, j) == i,
    decreases i - j,
{
    if j < i {
        assert(!sep_at(s, j));
        lemma_first_sep_found(s, j + 1, i);
    }
}

proof fn lemma_first_sep_none(s: Seq<char>, j: int)
    requires
        0 <= j,
        forall|t: int| j <= t < s.len() ==> !sep_at(s, t),
    ensures
        spec_first_sep(s, j) == s.len(),
    decreases s.len() - j,
{
    if j + 2 <= s.len() {
        assert(!sep_at(s, j));
        lemma_first_sep_none(s, j + 1);
    }
}

/// Exec computation of [`spec_root_of`].
pub fn root_of(name: &str) -> (r: String)
    ensures
        r@ == spec_root_of(name@),
{
    let len = name.unicode_len();
    let mut i: usize = 0;
    while len > 1 && i < len - 1
        invariant
            len == name@.len(),
            i <= len,
            forall|t: int| 0 <= t < i ==> !sep_at(name@, t),
        decreases len - i,
    {
        if name.get_char(i) == ':' && name.get_char(i + 1) == ':' {
            proof {
                lemma_first_sep_found(name@, 0, i as int);
            }
            let prefix = name.substring_char(0, i);
            return String::from_str(prefix);
        }
        i = i + 1;
    }
    proof {
        assert forall|t: int| 0 <= t < name@.len() implies !sep_at(name@, t) by {
            if t >= i {
                assert(t + 2 > name@.len());
            }
        };
        lemma_first_sep_none(name@, 0);
        assert(name@.take(len as int) =~= name@);
    }
    String::from_str(name)
}

/// Some span carries exactly this name.
pub open spec fn spec_has_name(items: Seq<(&'static str, u128, u128)>, name: Seq<char>) -> bool {
    exists|t: int| 0 <= t < items.len() && #[trigger] items[t].0@ == name
}

/// The last duration of the first span named exactly `name`, or zero if no
/// span carries the name.
pub open spec fn spec_own_last(items: Seq<(&'static str, u128, u128)>, name: Seq<char>) -> u128
    decreases items.len(),
{
    if items.len() == 0 {
        0
    } else if spec_has_name(items.drop_last(), name) {
        spec_own_last(items.drop_last(), name)
    } else if items.last().0@ == name {
        items.last().1
    } else {
        0
    }
}

proof fn lemma_own_last_at(items: Seq<(&'static str, u128, u128)>, name: Seq<char>, u: int)
    requires
        0 <= u < items.len(),
        items[u].0@ == name,
        forall|t: int| 0 <= t < u ==> #[trigger] items[t].0@ != name,
    ensures
        spec_own_last(items, name) == items[u].1,
    decreases items.len(),
{
    let prev = items.drop_last();
    if u < items.len() - 1 {
        assert(prev[u] == items[u]);
        assert(spec_has_name(prev, name));
        assert forall|t: int| 0 <= t < u implies #[trigger] prev[t].0@ != name by {
            assert(prev[t] == items[t]);
        };
        lemma_own_last_at(prev, name, u);
    } else {
        assert(!spec_has_name(prev, name)) by {
            if spec_has_name(prev, name) {
                let t0 = choose|t: int| 0 <= t < prev.len() && #[trigger] prev[t].0@ == name;
                assert(items[t0].0@ == name);
            }
        };
        assert(items.last() == items[u]);
    }
}

proof fn lemma_own_last_missing(items: Seq<(&'static str, u128, u128)>, name: Seq<char>)
    requires
        forall|t: int| 0 <= t < items.len() ==> #[trigger] items[t].0@ != name,
    ensures
        spec_own_last(items, name) == 0,
    decreases items.len(),
{
    if items.len() > 0 {
        let prev = items.drop_last();
        assert forall|t: int| 0 <= t < prev.len() implies #[trigger] prev[t].0@ != name by {
            assert(prev[t] == items[t]);
        };
        assert(!spec_has_name(prev, name));
        assert(items.last() == items[items.len() - 1]);
        lemma_own_last_missing(prev, name);
    }
}

/// The distinct group names of the spans, in first-appearance order.
pub open spec fn spec_root_names(items: Seq<(&'static str, u128, u128)>) -> Seq<Seq<char>>
    decreases items.len(),
{
    if items.len() == 0 {
        Seq::empty()
    } else {
        let prev = spec_root_names(items.drop_last());
        if prev.contains(spec_root_of(items.last().0@)) {
            prev
        } else {
            prev.push(spec_root_of(items.last().0@))
        }
    }
}

/// The sum of the named groups' own last durations.
pub open spec fn spec_groups_total(
    names: Seq<Seq<char>>,
    items: Seq<(&'static str, u128, u128)>,
) -> int
    decreases names.len(),
{
    if names.len() == 0 {
        0
    } else {
        spec_groups_total(names.drop_last(), items) + spec_own_last(items, names.last())
    }
}

/// The final segment of a span name: everything after the last `::`, or the
/// whole name if there is none.
pub fn last_segment(name: &str) -> (r: String)
    ensures
        r@.len() <= name@.len(),
{
    let len = name.unicode_len();
    let mut last_sep: usize = 0;
    let mut has_sep = false;
    let mut i: usize = 0;
    while len > 1 && i < len - 1
        invariant
            len == name@.len(),
            i <= len,
            has_sep ==> last_sep + 2 <= len,
        decreases len - i,
    {
        if name.get_char(i) == ':' && name.get_char(i + 1) == ':' {
            last_sep = i;
            has_sep = true;
        }
        i = i + 1;
    }
    if has_sep {
        let suffix = name.substring_char(last_sep + 2, len);
        String::from_str(suffix)
    } else {
        String::from_str(name)
    }
}

/// Character-wise lexicographic order.
pub open spec fn spec_lex_lt(a: Seq<char>, b: Seq<char>) -> bool
    decreases a.len(),
{
    if b.len() == 0 {
        false
    } else if a.len() == 0 {
        true
    } else if (a[0] as u32) < (b[0] as u32) {
        true
    } else if (a[0] as u32) > (b[0] as u32) {
        false
    } else {
        spec_lex_lt(a.drop_first(), b.drop_first())
    }
}

/// Exec mirror of [`spec_lex_lt`].
pub fn lex_lt(a: &str, b: &str) -> (r: bool)
    ensures
        r == spec_lex_lt(a@, b@),
{
    let a_len = a.unicode_len();
    let b_len = b.unicode_len();
    let mut i: usize = 0;
    proof {
        assert(a@.skip(0) =~= a@);
        assert(b@.skip(0) =~= b@);
    }
    while i < a_len && i < b_len
        invariant
            a_len == a@.len(),
            b_len == b@.len(),
            i <= a_len,
            i <= b_len,
            spec_lex_lt(a@, b@) == spec_lex_lt(a@.skip(i as int), b@.skip(i as int)),
        decreases a_len - i,
    {
        let ca = a.get_char(i) as u32;
        let cb = b.get_char(i) as u32;
        proof {
            assert(a@.skip(i as int)[0] == a@[i as int]);
            assert(b@.skip(i as int)[0] == b@[i as int]);
            assert(a@.skip(i as int).drop_first() =~= a@.skip(i + 1));
            assert(b@.skip(i as int).drop_first() =~= b@.skip(i + 1));
        }
        if ca < cb {
            return true;
        }
        if ca > cb {
            return false;
        }
        i = i + 1;
    }
    proof {
        if i >= b_len {
            assert(b@.skip(i as int).len() == 0);
        } else {
            assert(a@.skip(i as int).len() == 0);
            assert(b@.skip(i as int).len() > 0);
        }
    }
    i < b_len
}

/// One measured span: name, last duration and average duration, in
/// nanoseconds.
pub struct SpanLine {
    pub name: String,
    pub last: u128,
    pub avg: u128,
}

/// `a` is ordered before `b`: longer last durations first, ties broken by
/// name in ascending order.
fn ordered_before(a: &SpanLine, b: &SpanLine) -> (r: bool)
    ensures
        r == (a.last > b.last || (a.last == b.last && spec_lex_lt(a.name@, b.name@))),
{
    a.last > b.last || (a.last == b.last && lex_lt(a.name.as_str(), b.name.as_str()))
}

/// Insertion sort: longest last duration first, ties by name.
fn sort_spans(lines: Vec<SpanLine>) -> (r: Vec<SpanLine>)
    ensures
        r@.len() == lines@.len(),
{
    let mut sorted: Vec<SpanLine> = Vec::new();
    let mut i: usize = 0;
    while i < lines.len()
        invariant
            i <= lines@.len(),
            sorted@.len() == i,
        decreases lines@.len() - i,
    {
        let line = SpanLine {
            name: lines[i].name.clone(),
            last: lines[i].last,
            avg: lines[i].avg,
        };
        let mut pos: usize = 0;
        while pos < sorted.len() && !ordered_before(&line, &sorted[pos])
            invariant
                pos <= sorted@.len(),
            decreases sorted@.len() - pos,
        {
            pos = pos + 1;
        }
        sorted.insert(pos, line);
        i = i + 1;
    }
    sorted
}

/// The rounded whole percentage `part / whole`, or zero for an empty whole.
fn percent_of(part: u128, whole: u128) -> (r: u64)
    requires
        part <= whole,
        whole <= u64::MAX as u128 * 100,
    ensures
        whole > 0 ==> r <= 100,
        whole == 0 ==> r == 0,
{
    if whole == 0 {
        0
    } else {
        let scaled = part * 100 + whole / 2;
        let q = scaled / whole;
        proof {
            assert(q <= 100) by (nonlinear_arith)
                requires
                    part <= whole,
                    whole > 0,
                    scaled == part * 100 + whole / 2,
                    q == scaled / whole,
            ;
        }
        q as u64
    }
}

/// One duration in the style of the span table: the value in the largest
/// fitting unit with one rounded decimal digit, right-aligned to ten
/// characters.
pub fn fmt_dur(nanos: u128) -> (r: String)
    requires
        nanos / 1000000000 < u64::MAX as u128,
    ensures
        r@.len() >= 10,
{
    let (divisor, tenth, unit): (u128, u128, &'static str) = if nanos >= 1000000000 {
        (1000000000, 100000000, "s")
    } else if nanos >= 1000000 {
        (1000000, 100000, "ms")
    } else if nanos >= 1000 {
        (1000, 100, "\u{b5}s")
    } else {
        (1, 0, "ns")
    };
    let mut integer = nanos / divisor;
    let rem = nanos % divisor;
    let mut frac: u128 = 0;
    if tenth > 0 {
        frac = rem / tenth;
        proof {
            assert(rem < divisor);
            assert(frac <= 9) by (nonlinear_arith)
                requires
                    tenth > 0,
                    rem < divisor,
                    divisor == tenth * 10,
                    frac == rem / tenth,
            ;
        }
        let rest = rem % tenth;
        if rest >= tenth / 2 {
            frac = frac + 1;
        }
        if frac >= 10 {
            frac = 0;
            integer = integer + 1;
        }
    }
    let mut text = u64_to_string(integer as u64);
    push_char(&mut text, '.');
    let mut digits = u64_to_string(frac as u64);
    text.append(digits.as_str());
    text.append(unit);
    pad_left(text.as_str(), 10)
}

/// Renders measured spans as grouped lines: spans are grouped by their root
/// name, the ten slowest groups are shown slowest-first, and each group
/// lists its five slowest child spans. Returns the lines and the sum of the
/// shown groups' own last durations.
pub fn format_grouped_lines(items: Vec<(&'static str, u128, u128)>) -> (r: (String, u128))
    requires
        forall|t: int|
            0 <= t < items@.len() ==> #[trigger] items@[t].1 <= u64::MAX && items@[t].2
                <= u64::MAX,
        items@.len() <= u32::MAX,
    ensures
        spec_root_names(items@).len() <= 10 ==> r.1 == spec_groups_total(
            spec_root_names(items@),
            items@,
        ),
{
    // One entry per distinct root, with that root's own span times (zero if
    // no span carries exactly the root name).
    let mut roots: Vec<SpanLine> = Vec::new();
    let mut i: usize = 0;
    while i < items.len()
        invariant
            forall|t: int|
                0 <= t < items@.len() ==> #[trigger] items@[t].1 <= u64::MAX && items@[t].2
                    <= u64::MAX,
            forall|t: int|
                0 <= t < roots@.len() ==> #[trigger] roots@[t].last <= u64::MAX
                    && roots@[t].avg <= u64::MAX,
            roots@.len() <= i,
            i <= items@.len(),
            roots@.map_values(|l: SpanLine| l.name@) == spec_root_names(items@.take(i as int)),
            forall|t: int|
                0 <= t < roots@.len() ==> #[trigger] roots@[t].last == spec_own_last(
                    items@,
                    roots@[t].name@,
                ),
        decreases items@.len() - i,
    {
        proof {
            assert(items@.take(i + 1).drop_last() =~= items@.take(i as int));
            assert(items@.take(i + 1).last() == items@[i as int]);
        }
        let ghost names = roots@.map_values(|l: SpanLine| l.name@);
        let root = root_of(items[i].0);
        let mut seen = false;
        let mut t: usize = 0;
        while t < roots.len()
            invariant
                t <= roots@.len(),
                root@ == spec_root_of(items@[i as int].0@),
                seen == exists|t2: int|
                    0 <= t2 < t && #[trigger] roots@[t2].name@ == root@,
            decreases roots@.len() - t,
        {
            let ghost seen0 = seen;
            if crate::strutil::str_eq(roots[t].name.as_str(), root.as_str()) {
                seen = true;
            }
            proof {
                if seen && !seen0 && roots@[t as int].name@ != root@ {
                    assert(false);
                }
            }
            t = t + 1;
        }
        proof {
            if seen {
                let t0 = choose|t2: int| 0 <= t2 < roots@.len() && #[trigger] roots@[t2].name@
                    == root@;
                assert(names[t0] == root@);
                assert(names.contains(root@));
            } else {
                if names.contains(root@) {
                    let t0 = choose|t2: int| 0 <= t2 < names.len() && names[t2] == root@;
                    assert(roots@[t0].name@ == root@);
                    assert(false);
                }
            }
        }
        if !seen {
            let mut own_last: u128 = 0;
            let mut own_avg: u128 = 0;
            let mut found_own = false;
            let ghost mut first_idx: int = 0;
            let mut u: usize = 0;
            while u < items.len()
                invariant
                    forall|t2: int|
                        0 <= t2 < items@.len() ==> #[trigger] items@[t2].1 <= u64::MAX
                            && items@[t2].2 <= u64::MAX,
                    u <= items@.len(),
                    root@ == spec_root_of(items@[i as int].0@),
                    own_last <= u64::MAX,
                    own_avg <= u64::MAX,
                    found_own == exists|t2: int|
                        0 <= t2 < u && #[trigger] items@[t2].0@ == root@,
                    !found_own ==> own_last == 0 && own_avg == 0,
                    found_own ==> 0 <= first_idx < u && items@[first_idx].0@ == root@ && (
                    forall|t2: int| 0 <= t2 < first_idx ==> #[trigger] items@[t2].0@ != root@)
                        && own_last == items@[first_idx].1 && own_avg == items@[first_idx].2,
                decreases items@.len() - u,
            {
                let ghost found0 = found_own;
                if !found_own && crate::strutil::str_eq(items[u].0, root.as_str()) {
                    own_last = items[u].1;
                    own_avg = items[u].2;
                    found_own = true;
                    proof {
                        first_idx = u as int;
                    }
                }
                proof {
                    if found_own && !found0 && items@[u as int].0@ != root@ {
                        assert(false);
                    }
                }
                u = u + 1;
            }
            proof {
                if found_own {
                    lemma_own_last_at(items@, root@, first_idx);
                } else {
                    lemma_own_last_missing(items@, root@);
                }
            }
            let ghost roots0 = roots@;
            roots.push(SpanLine { name: root, last: own_last, avg: own_avg });
            proof {
                assert(roots@.last().last <= u64::MAX && roots@.last().avg <= u64::MAX);
                assert(roots@.map_values(|l: SpanLine| l.name@) =~= names.push(
                    spec_root_of(items@[i as int].0@),
                ));
                assert forall|t2: int|
                    0 <= t2 < roots@.len() implies #[trigger] roots@[t2].last == spec_own_last(
                    items@,
                    roots@[t2].name@,
                ) by {
                    if t2 < roots@.len() - 1 {
                        assert(roots@[t2] == roots0[t2]);
                    } else {
                        assert(roots@[t2] == roots@.last());
                        assert(roots@.last().name@ == root@);
                        assert(roots@.last().last == own_last);
                    }
                };
            }
        } else {
            proof {
                assert(roots@.map_values(|l: SpanLine| l.name@) == spec_root_names(
                    items@.take(i + 1),
                ));
            }
        }
        i = i + 1;
    }
    proof {
        assert(items@.take(items@.len() as int) =~= items@);
    }
    let ghost names = roots@.map_values(|l: SpanLine| l.name@);
    // When every group is shown, the total is the order-independent sum of
    // the groups' own last durations; with more than ten groups only the
    // ten slowest are summed, after sorting.
    let few = roots.len() <= 10;
    let mut total: u128 = 0;
    if few {
        let mut k: usize = 0;
        while k < roots.len()
            invariant
                names == roots@.map_values(|l: SpanLine| l.name@),
                names == spec_root_names(items@),
                k <= roots@.len(),
                roots@.len() <= 10,
                forall|t: int|
                    0 <= t < roots@.len() ==> #[trigger] roots@[t].last == spec_own_last(
                        items@,
                        roots@[t].name@,
                    ) && roots@[t].last <= u64::MAX,
                total <= k * (u64::MAX as u128),
                total == spec_groups_total(names.take(k as int), items@),
            decreases roots@.len() - k,
        {
            proof {
                assert(names.take(k + 1).drop_last() =~= names.take(k as int));
                assert(names.take(k + 1).last() == names[k as int]);
                assert(names[k as int] == roots@[k as int].name@);
            }
            total = total + roots[k].last;
            k = k + 1;
        }
        proof {
            assert(names.take(names.len() as int) =~= names);
        }
    }
    let sorted_roots = sort_spans(roots);
    let shown: usize = if sorted_roots.len() < 10 {
        sorted_roots.len()
    } else {
        10
    };
    if !few {
        let mut t: usize = 0;
        while t < shown
            invariant
                shown <= sorted_roots@.len(),
                t <= shown,
                total <= t * (u64::MAX as u128),
                shown <= 10,
            decreases shown - t,
        {
            let last = sorted_roots[t].last;
            if last <= u64::MAX as u128 {
                total = total + last;
            } else {
                total = total + u64::MAX as u128;
            }
            t = t + 1;
        }
    }
    let mut lines = String::new();
    let mut g: usize = 0;
    while g < shown
        invariant
            shown <= sorted_roots@.len(),
            g <= shown,
            total <= 10 * (u64::MAX as u128),
            forall|t2: int|
                0 <= t2 < items@.len() ==> #[trigger] items@[t2].1 <= u64::MAX && items@[t2].2
                    <= u64::MAX,
        decreases shown - g,
    {
        let root = &sorted_roots[g];
        let parent_last: u128 = if root.last <= u64::MAX as u128 {
            root.last
        } else {
            u64::MAX as u128
        };
        let parent_percent = percent_of(
            if parent_last <= total {
                parent_last
            } else {
                total
            },
            total,
        );
        lines.append("&8\u{251c}\u{2500} &a");
        let name_cell = pad_right(cut(root.name.as_str(), 30), 30);
        lines.append(name_cell.as_str());
        lines.append("&r &8\u{2502} &2");
        let last_cell = fmt_dur(parent_last);
        lines.append(last_cell.as_str());
        lines.append("&r &8\u{2502} &2");
        let pct_cell = pad_left(u64_to_string(parent_percent).as_str(), 3);
        lines.append(pct_cell.as_str());
        lines.append("%&r &8\u{2502} &8avg &2");
        let avg_capped: u128 = if root.avg <= u64::MAX as u128 {
            root.avg
        } else {
            u64::MAX as u128
        };
        let avg_cell = fmt_dur(avg_capped);
        lines.append(avg_cell.as_str());
        // The group's child spans, slowest first, at most five shown.
        let mut children: Vec<SpanLine> = Vec::new();
        let mut u: usize = 0;
        while u < items.len()
            invariant
                u <= items@.len(),
                children@.len() <= u,
                forall|t2: int|
                    0 <= t2 < items@.len() ==> #[trigger] items@[t2].1 <= u64::MAX && items@[
                        t2
                    ].2 <= u64::MAX,
                forall|t2: int|
                    0 <= t2 < children@.len() ==> #[trigger] children@[t2].last <= u64::MAX
                        && children@[t2].avg <= u64::MAX,
            decreases items@.len() - u,
        {
            let item_root = root_of(items[u].0);
            if crate::strutil::str_eq(item_root.as_str(), root.name.as_str())
                && !crate::strutil::str_eq(items[u].0, root.name.as_str()) {
                children.push(
                    SpanLine {
                        name: String::from_str(items[u].0),
                        last: items[u].1,
                        avg: items[u].2,
                    },
                );
            }
            u = u + 1;
        }
        let sorted_children = sort_spans(children);
        let child_count: usize = if sorted_children.len() < 5 {
            sorted_children.len()
        } else {
            5
        };
        let mut children_total: u128 = 0;
        let mut c: usize = 0;
        while c < child_count
            invariant
                child_count <= sorted_children@.len(),
                c <= child_count,
                child_count <= 5,
                children_total <= c * (u64::MAX as u128),
            decreases child_count - c,
        {
            let last = sorted_children[c].last;
            if last <= u64::MAX as u128 {
                children_total = children_total + last;
            } else {
                children_total = children_total + u64::MAX as u128;
            }
            c = c + 1;
        }
        let mut c: usize = 0;
        while c < child_count
            invariant
                child_count <= sorted_children@.len(),
                c <= child_count,
                children_total <= 5 * (u64::MAX as u128),
            decreases child_count - c,
        {
            let child = &sorted_children[c];
            let child_last: u128 = if child.last <= u64::MAX as u128 {
                child.last
            } else {
                u64::MAX as u128
            };
            let child_avg: u128 = if child.avg <= u64::MAX as u128 {
                child.avg
            } else {
                u64::MAX as u128
            };
            let child_percent = percent_of(
                if child_last <= children_total {
                    child_last
                } else {
                    children_total
                },
                children_total,
            );
            push_char(&mut lines, '\n');
            lines.append("&8\u{2502}  \u{2514}\u{2500} &e");
            let sub_name = last_segment(child.name.as_str());
            let child_cell = pad_right(cut(sub_name.as_str(), 27), 27);
            lines.append(child_cell.as_str());
            lines.append("&r &8\u{2502} &7");
            let last_cell = fmt_dur(child_last);
            lines.append(last_cell.as_str());
            lines.append("&r &8\u{2502} ");
            let pct_cell = pad_left(u64_to_string(child_percent).as_str(), 3);
            lines.append(pct_cell.as_str());
            lines.append("% &8\u{2502} &8avg ");
            let avg_cell = fmt_dur(child_avg);
            lines.append(avg_cell.as_str());
            c = c + 1;
        }
        if g + 1 < shown {
            push_char(&mut lines, '\n');
        }
        g = g + 1;
    }
    (lines, total)
}

} // verus!
