//! The text side of crash investigation: the breadcrumb ring, the log and
//! report lines, and the compaction of a backtrace to the frames that
//! matter. Writing them out, and the clock, stay with the caller.

use vstd::prelude::*;

use crate::strings::{
    chars_of, contains_seq, contains_str, decimal, has_char, is_whitespace, lines, lines_seq,
    push_char, push_chars, push_decimal, trim_start_seq,
};

verus! {

/// Log lines whose id is at least this are printed; the others are muted.
pub const LOG_THRESHOLD: u32 = 90;

/// How many breadcrumbs the ring keeps.
pub const BREADCRUMB_CAP: usize = 64;

/// How many breadcrumbs and frame lines a console digest shows, and how many
/// frame lines the report file's compact section holds.
pub const STDERR_BREADCRUMBS: usize = 8;
pub const STDERR_FRAME_LINES: usize = 12;
pub const REPORT_FRAME_LINES: usize = 28;

/// The last [`BREADCRUMB_CAP`] breadcrumbs, oldest first.
#[derive(Debug)]
pub struct Breadcrumbs {
    entries: Vec<String>,
}

/// What [`Breadcrumbs::push`] leaves: the entry appended, the oldest
/// dropped first when the ring is full.
pub open spec fn ring_push(old: Seq<Seq<char>>, entry: Seq<char>) -> Seq<Seq<char>> {
    if old.len() >= BREADCRUMB_CAP {
        old.skip(old.len() - BREADCRUMB_CAP + 1).push(entry)
    } else {
        old.push(entry)
    }
}

impl View for Breadcrumbs {
    type V = Seq<Seq<char>>;

    closed spec fn view(&self) -> Seq<Seq<char>> {
        crate::strings::strs_view(self.entries@)
    }
}

impl Breadcrumbs {
    /// The ring never holds more than its capacity.
    pub open spec fn wf(&self) -> bool {
        self@.len() <= BREADCRUMB_CAP
    }

    /// An empty ring.
    pub fn new() -> (r: Breadcrumbs)
        ensures
            r.wf(),
            r@ == Seq::<Seq<char>>::empty(),
    {
        let r = Breadcrumbs { entries: Vec::new() };
        assert(r@ =~= Seq::<Seq<char>>::empty());
        r
    }

    /// Record one breadcrumb, dropping the oldest when the ring is full.
    pub fn push(&mut self, entry: String)
        requires
            old(self).wf(),
        ensures
            final(self).wf(),
            final(self)@ == ring_push(old(self)@, entry@),
            final(self)@.len() <= BREADCRUMB_CAP,
    {
        let ghost before = self@;
        if self.entries.len() == BREADCRUMB_CAP {
            self.entries.remove(0);
            assert(self@ =~= before.skip(1));
        }
        let ghost mid = self@;
        self.entries.push(entry);
        assert(self@ =~= mid.push(entry@));
    }

    /// The ring's contents, oldest to newest.
    pub fn lines(&self) -> (r: Vec<String>)
        ensures
            crate::strings::strs_view(r@) == self@,
    {
        let mut r: Vec<String> = Vec::new();
        let mut i: usize = 0;
        while i < self.entries.len()
            invariant
                i <= self.entries.len(),
                crate::strings::strs_view(r@) == self@.take(i as int),
            decreases self.entries.len() - i,
        {
            let ghost before = crate::strings::strs_view(r@);
            r.push(self.entries[i].clone());
            assert(crate::strings::strs_view(r@) =~= before.push(self@[i as int]));
            assert(self@.take(i + 1) =~= self@.take(i as int).push(self@[i as int]));
            i = i + 1;
        }
        assert(self@.take(self.entries.len() as int) =~= self@);
        r
    }
}

/// The ring after the breadcrumbs `xs` were recorded into an empty one,
/// in order.
pub open spec fn ring_after(xs: Seq<Seq<char>>) -> Seq<Seq<char>>
    decreases xs.len(),
{
    if xs.len() == 0 {
        Seq::empty()
    } else {
        ring_push(ring_after(xs.drop_last()), xs.last())
    }
}

/// Over any run of breadcrumbs the ring holds exactly the last
/// [`BREADCRUMB_CAP`] of them (all of them while there are fewer), oldest
/// first.
pub proof fn lemma_ring_keeps_the_last(xs: Seq<Seq<char>>)
    ensures
        ring_after(xs) == if xs.len() > BREADCRUMB_CAP {
            xs.skip(xs.len() - BREADCRUMB_CAP)
        } else {
            xs
        },
        ring_after(xs).len() <= BREADCRUMB_CAP,
    decreases xs.len(),
{
    if xs.len() > 0 {
        let dl = xs.drop_last();
        lemma_ring_keeps_the_last(dl);
        if dl.len() > BREADCRUMB_CAP {
            assert(dl.skip(dl.len() - BREADCRUMB_CAP).skip(1).push(xs.last()) =~= xs.skip(
                xs.len() - BREADCRUMB_CAP,
            ));
        } else if dl.len() == BREADCRUMB_CAP {
            assert(dl.skip(1).push(xs.last()) =~= xs.skip(xs.len() - BREADCRUMB_CAP));
        } else {
            assert(dl.push(xs.last()) =~= xs);
        }
    }
}

/// One more breadcrumb extends the run: recording `x` into the ring that
/// the run `xs` left gives the ring of the run `xs` followed by `x`, so a
/// ring that [`breadcrumb`] filled call after call from empty is the
/// `ring_after` of all it recorded.
pub proof fn lemma_ring_after_one_more(xs: Seq<Seq<char>>, x: Seq<char>)
    ensures
        ring_push(ring_after(xs), x) == ring_after(xs.push(x)),
{
    assert(xs.push(x).drop_last() =~= xs);
}

/// A log line: `[+{stamp}s][{level}] {message}`, where `stamp` is the
/// elapsed time as the caller formatted it.
pub open spec fn line_spec(stamp: Seq<char>, level: Seq<char>, message: Seq<char>) -> Seq<char> {
    seq!['[', '+'] + stamp + seq!['s', ']', '['] + level + seq![']', ' '] + message
}

/// Format one log line.
pub fn line(stamp: &str, level: &str, message: &str) -> (r: String)
    ensures
        r@ == line_spec(stamp@, level@, message@),
{
    let mut r = String::new();
    push_char(&mut r, '[');
    push_char(&mut r, '+');
    r.append(stamp);
    push_char(&mut r, 's');
    push_char(&mut r, ']');
    push_char(&mut r, '[');
    r.append(level);
    push_char(&mut r, ']');
    push_char(&mut r, ' ');
    r.append(message);
    assert(r@ =~= line_spec(stamp@, level@, message@));
    r
}

/// A breadcrumb entry: `[+{stamp}s] {message}`.
pub open spec fn breadcrumb_spec(stamp: Seq<char>, message: Seq<char>) -> Seq<char> {
    seq!['[', '+'] + stamp + seq!['s', ']', ' '] + message
}

/// Record a breadcrumb stamped with the elapsed time the caller formatted.
pub fn breadcrumb(ring: &mut Breadcrumbs, stamp: &str, message: &str)
    requires
        old(ring).wf(),
    ensures
        final(ring).wf(),
        final(ring)@ == ring_push(old(ring)@, breadcrumb_spec(stamp@, message@)),
{
    let mut entry = String::new();
    push_char(&mut entry, '[');
    push_char(&mut entry, '+');
    entry.append(stamp);
    push_char(&mut entry, 's');
    push_char(&mut entry, ']');
    push_char(&mut entry, ' ');
    entry.append(message);
    assert(entry@ =~= breadcrumb_spec(stamp@, message@));
    ring.push(entry);
}

/// The ring's contents, oldest to newest.
pub fn breadcrumb_lines(ring: &Breadcrumbs) -> (r: Vec<String>)
    ensures
        crate::strings::strs_view(r@) == ring@,
{
    ring.lines()
}

/// A snapshot for the freeze watchdog, which must never wait: `None` when
/// the ring is not available without waiting.
pub fn try_breadcrumb_lines(ring: Option<&Breadcrumbs>) -> (r: Option<Vec<String>>)
    ensures
        match ring {
            None => r is None,
            Some(b) => r matches Some(v) && crate::strings::strs_view(v@) == b@,
        },
{
    match ring {
        Some(b) => Some(b.lines()),
        None => None,
    }
}

/// `l` with every backslash turned into a slash.
pub open spec fn normalize(l: Seq<char>) -> Seq<char> {
    l.map_values(|c: char| if c == '\\' { '/' } else { c })
}

/// Whether a line belongs to the panic hook's own frames.
pub open spec fn is_hook_frame(l: Seq<char>) -> bool {
    contains_seq(l, "obs::print_crash_report"@) || contains_seq(l, "obs::install_panic_hook"@)
}

/// Whether a backtrace line is about this program or the UI framework's
/// entity machinery, in either path style, and not the hook itself.
pub open spec fn is_relevant(l: Seq<char>) -> bool {
    let n = normalize(l);
    &&& !is_hook_frame(n)
    &&& (contains_seq(n, "ferail_"@) || contains_seq(n, "crates/ferail-"@) || contains_seq(
        n,
        "gpui::app::entity_map"@,
    ) || contains_seq(n, "gpui/src/app.rs"@) || contains_seq(n, "gpui/src/app/context.rs"@)
        || contains_seq(n, "gpui/src/app/entity_map.rs"@))
}

/// Whether a backtrace line opens a frame: after its indentation, a digit,
/// and a colon somewhere.
pub open spec fn is_frame_line(l: Seq<char>) -> bool {
    let t = trim_start_seq(l);
    t.len() > 0 && '0' <= t[0] && t[0] <= '9' && has_char(t, ':')
}

/// `l` indented by four spaces.
pub open spec fn indent(l: Seq<char>) -> Seq<char> {
    seq![' ', ' ', ' ', ' '] + l
}

/// Where the compaction stands after some lines: what it wrote, how many
/// lines, the frame line waiting for its location line, and whether it has
/// stopped at the cap.
pub struct CompactState {
    pub out: Seq<Seq<char>>,
    pub printed: nat,
    pub pending: Option<Seq<char>>,
    pub done: bool,
}

/// One backtrace line through the compaction.
pub open spec fn compact_step(st: CompactState, l: Seq<char>, max: nat) -> CompactState {
    if st.done {
        st
    } else if is_frame_line(l) {
        CompactState { pending: Some(l), ..st }
    } else if st.pending matches Some(f) && is_hook_frame(f) {
        CompactState { pending: None, ..st }
    } else {
        let relevant = is_relevant(l) || (st.pending matches Some(f) && is_relevant(f));
        let (out, printed, pending) = if relevant {
            match st.pending {
                Some(f) => (st.out.push(indent(f)).push(indent(l)), st.printed + 2, None),
                None => (st.out.push(indent(l)), st.printed + 1, None),
            }
        } else {
            (st.out, st.printed, st.pending)
        };
        if printed >= max {
            CompactState {
                out: out.push(indent("... compacted ..."@)),
                printed,
                pending,
                done: true,
            }
        } else {
            CompactState { out, printed, pending, done: false }
        }
    }
}

/// The compaction after the lines `ls`.
pub open spec fn compact_fold(ls: Seq<Seq<char>>, max: nat) -> CompactState
    decreases ls.len(),
{
    if ls.len() == 0 {
        CompactState { out: Seq::empty(), printed: 0, pending: None, done: false }
    } else {
        compact_step(compact_fold(ls.drop_last(), max), ls.last(), max)
    }
}

/// The lines [`write_compact_backtrace`] writes for a backtrace.
pub open spec fn compact_lines(backtrace: Seq<char>, max: nat) -> Seq<Seq<char>> {
    let st = compact_fold(lines_seq(backtrace), max);
    if !st.done && st.printed == 0 {
        st.out.push(indent("<no Ferail/GPUI frames found>"@))
    } else {
        st.out
    }
}

/// Lines written one after another, each ended by `\n`.
pub open spec fn text_of_lines(ls: Seq<Seq<char>>) -> Seq<char>
    decreases ls.len(),
{
    if ls.len() == 0 {
        Seq::empty()
    } else {
        text_of_lines(ls.drop_last()) + ls.last() + seq!['\n']
    }
}

fn write_line(out: &mut String, l: &[char])
    ensures
        final(out)@ == old(out)@ + indent(l@) + seq!['\n'],
{
    push_char(out, ' ');
    push_char(out, ' ');
    push_char(out, ' ');
    push_char(out, ' ');
    push_chars(out, l);
    push_char(out, '\n');
    assert(final(out)@ =~= old(out)@ + indent(l@) + seq!['\n']);
}

fn is_frame(l: &[char]) -> (r: bool)
    ensures
        r == is_frame_line(l@),
{
    let mut i: usize = 0;
    assert(l@.skip(0) =~= l@);
    while i < l.len() && is_whitespace(l[i])
        invariant
            i <= l.len(),
            trim_start_seq(l@) == trim_start_seq(l@.skip(i as int)),
        decreases l.len() - i,
    {
        assert(l@.skip(i as int).drop_first() =~= l@.skip(i + 1));
        i = i + 1;
    }
    assert(trim_start_seq(l@.skip(i as int)) == l@.skip(i as int));
    if i == l.len() {
        assert(l@.skip(i as int).len() == 0);
        assert(!is_frame_line(l@));
        return false;
    }
    assert(l@.skip(i as int)[0] == l@[i as int]);
    assert(trim_start_seq(l@) == l@.skip(i as int));
    let first = l[i];
    if !('0' <= first && first <= '9') {
        assert(!is_frame_line(l@));
        return false;
    }
    let mut j: usize = i;
    while j < l.len()
        invariant
            i <= j <= l.len(),
            i < l.len(),
            '0' <= l@[i as int] && l@[i as int] <= '9',
            l@.skip(i as int)[0] == l@[i as int],
            trim_start_seq(l@) == l@.skip(i as int),
            forall|k: int| i <= k < j ==> l@[k] != ':',
        decreases l.len() - j,
    {
        if l[j] == ':' {
            assert(l@.skip(i as int)[j - i] == ':');
            assert(has_char(trim_start_seq(l@), ':'));
            assert(is_frame_line(l@));
            return true;
        }
        j = j + 1;
    }
    assert(!has_char(l@.skip(i as int), ':')) by {
        if has_char(l@.skip(i as int), ':') {
            let k = choose|k: int| 0 <= k < l@.skip(i as int).len() && l@.skip(i as int)[k] == ':';
            assert(l@[i + k] == ':');
        }
    }
    false
}

fn hook_frame(l: &[char]) -> (r: bool)
    ensures
        r == is_hook_frame(l@),
{
    contains_str(l, "obs::print_crash_report") || contains_str(l, "obs::install_panic_hook")
}

fn relevant(l: &[char]) -> (r: bool)
    ensures
        r == is_relevant(l@),
{
    let mut n: Vec<char> = Vec::new();
    let mut i: usize = 0;
    while i < l.len()
        invariant
            i <= l.len(),
            n@ == normalize(l@.take(i as int)),
        decreases l.len() - i,
    {
        n.push(if l[i] == '\\' { '/' } else { l[i] });
        assert(n@ =~= normalize(l@.take(i + 1)));
        i = i + 1;
    }
    assert(l@.take(l.len() as int) =~= l@);
    !hook_frame(&n) && (contains_str(&n, "ferail_") || contains_str(&n, "crates/ferail-")
        || contains_str(&n, "gpui::app::entity_map") || contains_str(&n, "gpui/src/app.rs")
        || contains_str(&n, "gpui/src/app/context.rs") || contains_str(&n, "gpui/src/app/entity_map.rs"))
}

/// Write the frames of `backtrace` that are about this program or the UI
/// framework's entity machinery, each frame line with its location line,
/// the panic hook's own frames skipped, at most about `max_lines` lines
/// before a `... compacted ...` marker, and a note when none was found.
pub fn write_compact_backtrace(out: &mut String, backtrace: &str, max_lines: usize)
    ensures
        final(out)@ == old(out)@ + text_of_lines(compact_lines(backtrace@, max_lines as nat)),
{
    let chars = chars_of(backtrace);
    let ls = lines(&chars);
    let ghost lv = ls@.map_values(|l: Vec<char>| l@);
    let ghost max = max_lines as nat;
    let ghost start = out@;
    let mut printed: u128 = 0;
    let mut pending: Option<usize> = None;
    let mut done = false;
    let ghost mut written: Seq<Seq<char>> = Seq::empty();
    let mut i: usize = 0;
    while i < ls.len() && !done
        invariant
            i <= ls.len(),
            lv == ls@.map_values(|l: Vec<char>| l@),
            lv == lines_seq(backtrace@),
            max == max_lines as nat,
            printed <= 2 * i,
            out@ == start + text_of_lines(written),
            pending matches Some(p) ==> p < i,
            compact_fold(lv.take(i as int), max) == (CompactState {
                out: written,
                printed: printed as nat,
                pending: match pending {
                    Some(p) => Some(lv[p as int]),
                    None => None,
                },
                done,
            }),
        decreases ls.len() - i,
    {
        assert(lv.take(i + 1).drop_last() =~= lv.take(i as int));
        assert(lv.take(i + 1).last() == ls@[i as int]@);
        assert(lv[i as int] == ls@[i as int]@);
        assert(pending matches Some(p) ==> lv[p as int] == ls@[p as int]@);
        let ghost st = compact_fold(lv.take(i as int), max);
        assert(compact_fold(lv.take(i + 1), max) == compact_step(st, lv[i as int], max));
        let l = &ls[i];
        if is_frame(l) {
            pending = Some(i);
        } else {
            let skip = match pending {
                Some(p) => hook_frame(&ls[p]),
                None => false,
            };
            if skip {
                pending = None;
            } else {
                let rel = relevant(l) || match pending {
                    Some(p) => relevant(&ls[p]),
                    None => false,
                };
                if rel {
                    match pending {
                        Some(p) => {
                            write_line(out, &ls[p]);
                            proof {
                                lemma_text_push(written, indent(lv[p as int]));
                                written = written.push(indent(lv[p as int]));
                            }
                            printed = printed + 1;
                        },
                        None => {},
                    }
                    write_line(out, l);
                    proof {
                        lemma_text_push(written, indent(lv[i as int]));
                        written = written.push(indent(lv[i as int]));
                    }
                    printed = printed + 1;
                    pending = None;
                }
                if printed >= max_lines as u128 {
                    let marker = chars_of("    ... compacted ...");
                    proof {
                        reveal_strlit("    ... compacted ...");
                        reveal_strlit("... compacted ...");
                        assert(marker@ =~= indent("... compacted ..."@));
                    }
                    push_chars(out, &marker);
                    push_char(out, '\n');
                    proof {
                        lemma_text_push(written, indent("... compacted ..."@));
                        written = written.push(indent("... compacted ..."@));
                    }
                    done = true;
                }
            }
        }
        i = i + 1;
    }
    proof {
        if !done {
            assert(lv.take(i as int) =~= lv);
        } else {
            lemma_compact_done(lv, max, i as int);
        }
    }
    if !done && printed == 0 {
        let note = chars_of("    <no Ferail/GPUI frames found>");
        proof {
            reveal_strlit("    <no Ferail/GPUI frames found>");
            reveal_strlit("<no Ferail/GPUI frames found>");
            assert(note@ =~= indent("<no Ferail/GPUI frames found>"@));
        }
        push_chars(out, &note);
        push_char(out, '\n');
        proof {
            lemma_text_push(written, indent("<no Ferail/GPUI frames found>"@));
        }
    }
}

proof fn lemma_text_push(w: Seq<Seq<char>>, x: Seq<char>)
    ensures
        text_of_lines(w.push(x)) == text_of_lines(w) + x + seq!['\n'],
{
    assert(w.push(x).drop_last() =~= w);
}

proof fn lemma_text_one(a: Seq<char>)
    ensures
        text_of_lines(seq![a]) == a + seq!['\n'],
{
    lemma_text_push(Seq::empty(), a);
    assert(Seq::<Seq<char>>::empty().push(a) =~= seq![a]);
    assert(text_of_lines(Seq::<Seq<char>>::empty()) + a + seq!['\n'] =~= a + seq!['\n']);
}

proof fn lemma_text_two(a: Seq<char>, b: Seq<char>)
    ensures
        text_of_lines(seq![a, b]) == a + seq!['\n'] + b + seq!['\n'],
{
    lemma_text_one(a);
    lemma_text_push(seq![a], b);
    assert(seq![a].push(b) =~= seq![a, b]);
}

proof fn lemma_compact_done(ls: Seq<Seq<char>>, max: nat, i: int)
    requires
        0 <= i <= ls.len(),
        compact_fold(ls.take(i), max).done,
    ensures
        compact_fold(ls, max) == compact_fold(ls.take(i), max),
    decreases ls.len() - i,
{
    if i < ls.len() {
        assert(ls.take(i + 1).drop_last() =~= ls.take(i));
        lemma_compact_done(ls, max, i + 1);
    } else {
        assert(ls.take(i) =~= ls);
    }
}

/// `n` right-aligned in two columns.
pub open spec fn pad2(n: nat) -> Seq<char> {
    if n < 10 {
        seq![' '] + decimal(n)
    } else {
        decimal(n)
    }
}

/// `n` zero-padded to two digits.
pub open spec fn zero2(n: nat) -> Seq<char> {
    if n < 10 {
        seq!['0'] + decimal(n)
    } else {
        decimal(n)
    }
}

/// The numbered entries of a breadcrumb listing, from entry `from` on.
pub open spec fn numbered(v: Seq<Seq<char>>, from: nat) -> Seq<Seq<char>> {
    Seq::new(
        (v.len() - from) as nat,
        |k: int| indent(pad2((from + k + 1) as nat) + seq!['.', ' '] + v[from + k]),
    )
}

/// The lines [`dump_breadcrumbs_for_panic`] writes: the ring's last `limit`
/// entries, numbered from the oldest, with a note of how many earlier ones
/// only the report file holds.
pub open spec fn dump_lines(snapshot: Option<Seq<Seq<char>>>, limit: nat) -> Seq<Seq<char>> {
    match snapshot {
        None => seq!["breadcrumbs:"@, indent("<unavailable: held by panicking thread>"@)],
        Some(v) => if v.len() == 0 {
            seq!["breadcrumbs:"@, indent("<none>"@)]
        } else if v.len() > limit {
            let skipped = (v.len() - limit) as nat;
            seq![
                "breadcrumbs:"@,
                indent(seq!['.', '.', '.', ' '] + decimal(skipped) + " earlier (in the report file) ..."@),
            ] + numbered(v, skipped)
        } else {
            seq!["breadcrumbs:"@] + numbered(v, 0)
        },
    }
}

fn push_str_line(out: &mut String, text: &str)
    ensures
        final(out)@ == old(out)@ + text@ + seq!['\n'],
{
    out.append(text);
    push_char(out, '\n');
}

/// Write the breadcrumb snapshot's last `limit` entries; the report file
/// passes no limit, the console a small one. `None` is a ring the panicking
/// thread still holds.
pub fn dump_breadcrumbs_for_panic(out: &mut String, snapshot: Option<&Vec<String>>, limit: usize)
    ensures
        final(out)@ == old(out)@ + text_of_lines(
            dump_lines(
                match snapshot {
                    Some(v) => Some(crate::strings::strs_view(v@)),
                    None => None,
                },
                limit as nat,
            ),
        ),
{
    let ghost start = out@;
    proof {
        reveal_strlit("breadcrumbs:");
        reveal_strlit("    <unavailable: held by panicking thread>");
        reveal_strlit("<unavailable: held by panicking thread>");
        reveal_strlit("    <none>");
        reveal_strlit("<none>");
        reveal_strlit(" earlier (in the report file) ...");
    }
    let v = match snapshot {
        None => {
            push_str_line(out, "breadcrumbs:");
            push_str_line(out, "    <unavailable: held by panicking thread>");
            proof {
                let ls = dump_lines(None, limit as nat);
                assert("    <unavailable: held by panicking thread>"@ =~= indent("<unavailable: held by panicking thread>"@));
                lemma_text_two("breadcrumbs:"@, indent("<unavailable: held by panicking thread>"@));
                assert(out@ =~= start + text_of_lines(ls));
            }
            return;
        },
        Some(v) => v,
    };
    let ghost vv = crate::strings::strs_view(v@);
    if v.len() == 0 {
        push_str_line(out, "breadcrumbs:");
        push_str_line(out, "    <none>");
        proof {
            let ls = dump_lines(Some(vv), limit as nat);
            assert("    <none>"@ =~= indent("<none>"@));
            lemma_text_two("breadcrumbs:"@, indent("<none>"@));
            assert(out@ =~= start + text_of_lines(ls));
        }
        return;
    }
    push_str_line(out, "breadcrumbs:");
    let ghost mut written: Seq<Seq<char>> = seq!["breadcrumbs:"@];
    proof {
        lemma_text_one("breadcrumbs:"@);
        assert(out@ =~= start + text_of_lines(written));
    }
    let skipped: usize = if v.len() > limit {
        v.len() - limit
    } else {
        0
    };
    if skipped > 0 {
        let ghost before = out@;
        out.append("    ... ");
        push_decimal(out, skipped as u64);
        out.append(" earlier (in the report file) ...");
        push_char(out, '\n');
        proof {
            reveal_strlit("    ... ");
            let x = indent(seq!['.', '.', '.', ' '] + decimal(skipped as nat) + " earlier (in the report file) ..."@);
            assert(out@ =~= before + x + seq!['\n']);
            lemma_text_push(written, x);
            written = written.push(x);
        }
    }
    let mut k: usize = skipped;
    while k < v.len()
        invariant
            skipped <= k <= v.len(),
            vv == crate::strings::strs_view(v@),
            out@ == start + text_of_lines(written),
            written == (if skipped > 0 {
                seq![
                    "breadcrumbs:"@,
                    indent(seq!['.', '.', '.', ' '] + decimal(skipped as nat) + " earlier (in the report file) ..."@),
                ]
            } else {
                seq!["breadcrumbs:"@]
            }) + numbered(vv, skipped as nat).take(k - skipped),
        decreases v.len() - k,
    {
        let ghost before = out@;
        out.append("    ");
        if k + 1 < 10 {
            push_char(out, ' ');
        }
        push_decimal(out, (k + 1) as u64);
        push_char(out, '.');
        push_char(out, ' ');
        out.append(v[k].as_str());
        push_char(out, '\n');
        proof {
            reveal_strlit("    ");
            let x = indent(pad2((k + 1) as nat) + seq!['.', ' '] + vv[k as int]);
            assert(out@ =~= before + x + seq!['\n']);
            lemma_text_push(written, x);
            let head = if skipped > 0 {
                seq![
                    "breadcrumbs:"@,
                    indent(seq!['.', '.', '.', ' '] + decimal(skipped as nat) + " earlier (in the report file) ..."@),
                ]
            } else {
                seq!["breadcrumbs:"@]
            };
            let nb = numbered(vv, skipped as nat);
            assert(nb[k - skipped] == x);
            assert(nb.take(k + 1 - skipped) =~= nb.take(k - skipped).push(x));
            assert(head + nb.take(k + 1 - skipped) =~= (head + nb.take(k - skipped)).push(x));
            written = written.push(x);
        }
        k = k + 1;
    }
    proof {
        let nb = numbered(vv, skipped as nat);
        assert(nb.take(v.len() - skipped) =~= nb);
        assert(written =~= dump_lines(Some(vv), limit as nat));
    }
}

/// A wall-clock UTC time of day from seconds since the epoch:
/// `hh:mm:ssZ (epoch secs)`.
pub open spec fn wall_clock_spec(secs: nat) -> Seq<char> {
    zero2((secs / 3600) % 24) + seq![':'] + zero2((secs / 60) % 60) + seq![':'] + zero2(secs % 60)
        + "Z (epoch "@ + decimal(secs) + seq![')']
}

fn push_zero2(out: &mut String, n: u64)
    requires
        n < 100,
    ensures
        final(out)@ == old(out)@ + zero2(n as nat),
{
    if n < 10 {
        push_char(out, '0');
    }
    push_decimal(out, n);
    assert(final(out)@ =~= old(out)@ + zero2(n as nat));
}

/// Format a wall-clock UTC time of day from seconds since the epoch.
pub fn wall_clock_iso_of(secs: u64) -> (r: String)
    ensures
        r@ == wall_clock_spec(secs as nat),
{
    let h = (secs / 3600) % 24;
    let m = (secs / 60) % 60;
    let s = secs % 60;
    let mut r = String::new();
    push_zero2(&mut r, h);
    push_char(&mut r, ':');
    push_zero2(&mut r, m);
    push_char(&mut r, ':');
    push_zero2(&mut r, s);
    r.append("Z (epoch ");
    push_decimal(&mut r, secs);
    push_char(&mut r, ')');
    assert(r@ =~= wall_clock_spec(secs as nat));
    r
}

/// The rule under the crash header and at the end of a report.
pub open spec fn rule_line() -> Seq<char> {
    "==============================================================="@
}

/// The header block of a crash report; `time` is the elapsed time since
/// start, already formatted.
pub open spec fn header_text(time: Seq<char>, thread: Seq<char>, location: Seq<char>, payload: Seq<
    char,
>) -> Seq<char> {
    seq!['\n'] + "==================== Ferail (gpui) Crash ===================="@ + seq!['\n']
        + "time      : +"@ + time + seq!['s', '\n'] + "thread    : "@ + thread + seq!['\n']
        + "location  : "@ + location + seq!['\n'] + "message   : "@ + payload + seq!['\n', '\n']
}

fn push_str(out: &mut String, text: &str)
    ensures
        final(out)@ == old(out)@ + text@,
{
    out.append(text);
}

/// Write the header block of a crash report.
pub fn write_report_header(out: &mut String, time: &str, thread: &str, location: &str, payload: &str)
    ensures
        final(out)@ == old(out)@ + header_text(time@, thread@, location@, payload@),
{
    let ghost start = out@;
    push_char(out, '\n');
    push_str(out, "==================== Ferail (gpui) Crash ====================");
    push_char(out, '\n');
    push_str(out, "time      : +");
    push_str(out, time);
    push_char(out, 's');
    push_char(out, '\n');
    push_str(out, "thread    : ");
    push_str(out, thread);
    push_char(out, '\n');
    push_str(out, "location  : ");
    push_str(out, location);
    push_char(out, '\n');
    push_str(out, "message   : ");
    push_str(out, payload);
    push_char(out, '\n');
    push_char(out, '\n');
    assert(out@ =~= start + header_text(time@, thread@, location@, payload@));
}

/// The breadcrumb snapshot as plain values.
pub open spec fn snapshot_view(snapshot: Option<&Vec<String>>) -> Option<Seq<Seq<char>>> {
    match snapshot {
        Some(v) => Some(crate::strings::strs_view(v@)),
        None => None,
    }
}

/// The crash report the report file gets: the header, every breadcrumb,
/// the compacted frames, and the complete raw backtrace.
pub open spec fn detailed_text(
    time: Seq<char>,
    thread: Seq<char>,
    location: Seq<char>,
    payload: Seq<char>,
    snapshot: Option<Seq<Seq<char>>>,
    backtrace: Seq<char>,
) -> Seq<char> {
    header_text(time, thread, location, payload) + text_of_lines(dump_lines(snapshot, usize::MAX as nat))
        + seq!['\n'] + "relevant frames:"@ + seq!['\n'] + text_of_lines(
        compact_lines(backtrace, REPORT_FRAME_LINES as nat),
    ) + seq!['\n'] + "backtrace :"@ + seq!['\n'] + backtrace + seq!['\n'] + rule_line() + seq![
        '\n',
    ]
}

/// The whole crash report, as the report file gets it.
pub fn detailed_report(
    time: &str,
    thread: &str,
    location: &str,
    payload: &str,
    snapshot: Option<&Vec<String>>,
    backtrace: &str,
) -> (r: String)
    ensures
        r@ == detailed_text(time@, thread@, location@, payload@, snapshot_view(snapshot), backtrace@),
{
    let mut out = String::new();
    write_report_header(&mut out, time, thread, location, payload);
    dump_breadcrumbs_for_panic(&mut out, snapshot, usize::MAX);
    push_char(&mut out, '\n');
    push_str(&mut out, "relevant frames:");
    push_char(&mut out, '\n');
    write_compact_backtrace(&mut out, backtrace, REPORT_FRAME_LINES);
    push_char(&mut out, '\n');
    push_str(&mut out, "backtrace :");
    push_char(&mut out, '\n');
    push_str(&mut out, backtrace);
    push_char(&mut out, '\n');
    push_str(&mut out, "===============================================================");
    push_char(&mut out, '\n');
    assert(out@ =~= detailed_text(
        time@,
        thread@,
        location@,
        payload@,
        snapshot_view(snapshot),
        backtrace@,
    ));
    out
}

/// The console digest of a crash: the header, the last few breadcrumbs,
/// the compacted frames, and where the full report was written.
pub open spec fn brief_text(
    time: Seq<char>,
    thread: Seq<char>,
    location: Seq<char>,
    payload: Seq<char>,
    snapshot: Option<Seq<Seq<char>>>,
    backtrace: Seq<char>,
    report_path: Seq<char>,
) -> Seq<char> {
    header_text(time, thread, location, payload) + text_of_lines(
        dump_lines(snapshot, STDERR_BREADCRUMBS as nat),
    ) + seq!['\n'] + "relevant frames:"@ + seq!['\n'] + text_of_lines(
        compact_lines(backtrace, STDERR_FRAME_LINES as nat),
    ) + "full report: "@ + report_path
        + " (every breadcrumb + the complete backtrace; set FERAIL_FULL_BACKTRACE=1 to print it here instead)"@
        + seq!['\n'] + rule_line() + seq!['\n']
}

/// The crash digest printed on the console when a report file was
/// written.
pub fn brief_report(
    time: &str,
    thread: &str,
    location: &str,
    payload: &str,
    snapshot: Option<&Vec<String>>,
    backtrace: &str,
    report_path: &str,
) -> (r: String)
    ensures
        r@ == brief_text(
            time@,
            thread@,
            location@,
            payload@,
            snapshot_view(snapshot),
            backtrace@,
            report_path@,
        ),
{
    let mut out = String::new();
    write_report_header(&mut out, time, thread, location, payload);
    dump_breadcrumbs_for_panic(&mut out, snapshot, STDERR_BREADCRUMBS);
    push_char(&mut out, '\n');
    push_str(&mut out, "relevant frames:");
    push_char(&mut out, '\n');
    write_compact_backtrace(&mut out, backtrace, STDERR_FRAME_LINES);
    push_str(&mut out, "full report: ");
    push_str(&mut out, report_path);
    push_str(
        &mut out,
        " (every breadcrumb + the complete backtrace; set FERAIL_FULL_BACKTRACE=1 to print it here instead)",
    );
    push_char(&mut out, '\n');
    push_str(&mut out, "===============================================================");
    push_char(&mut out, '\n');
    assert(out@ =~= brief_text(
        time@,
        thread@,
        location@,
        payload@,
        snapshot_view(snapshot),
        backtrace@,
        report_path@,
    ));
    out
}

/// Whether the full backtrace is asked for inline: the dedicated switch
/// is set, or the standard backtrace variable says `full`.
pub fn full_backtrace_requested(full_switch_set: bool, rust_backtrace: Option<&str>) -> (r: bool)
    ensures
        r == (full_switch_set || match rust_backtrace {
            Some(v) => v@ == "full"@,
            None => false,
        }),
{
    full_switch_set || match rust_backtrace {
        Some(v) => crate::strings::chars_eq_str(&chars_of(v), "full"),
        None => false,
    }
}

/// Whether the console gets the digest rather than the whole report:
/// only when a report file holds the whole story and the full backtrace
/// was not asked for inline.
pub fn console_gets_digest(report_written: bool, full: bool) -> (r: bool)
    ensures
        r == (report_written && !full),
{
    report_written && !full
}

/// The facts persisted before anything that can fail in a panic hook.
pub open spec fn essential_text(version: Seq<char>, pid: nat, thread: Seq<char>, location: Seq<char>, payload: Seq<char>) -> Seq<char> {
    "Ferail "@ + version + " crash"@ + seq!['\n'] + "pid: "@ + decimal(pid) + seq!['\n']
        + "thread: "@ + thread + seq!['\n'] + "location: "@ + location + seq!['\n'] + "message: "@
        + payload + seq!['\n']
}

/// The essential crash facts: version, process id, thread, location and
/// message.
pub fn essential_report(version: &str, pid: u32, thread: &str, location: &str, payload: &str) -> (r:
    String)
    ensures
        r@ == essential_text(version@, pid as nat, thread@, location@, payload@),
{
    let mut out = String::new();
    push_str(&mut out, "Ferail ");
    push_str(&mut out, version);
    push_str(&mut out, " crash");
    push_char(&mut out, '\n');
    push_str(&mut out, "pid: ");
    push_decimal(&mut out, pid as u64);
    push_char(&mut out, '\n');
    push_str(&mut out, "thread: ");
    push_str(&mut out, thread);
    push_char(&mut out, '\n');
    push_str(&mut out, "location: ");
    push_str(&mut out, location);
    push_char(&mut out, '\n');
    push_str(&mut out, "message: ");
    push_str(&mut out, payload);
    push_char(&mut out, '\n');
    assert(out@ =~= essential_text(version@, pid as nat, thread@, location@, payload@));
    out
}

/// The leaf name of a process's crash report file.
pub fn crash_report_leaf(pid: u32) -> (r: String)
    ensures
        r@ == "ferail-crash-"@ + decimal(pid as nat) + ".txt"@,
{
    let mut out = String::new();
    push_str(&mut out, "ferail-crash-");
    push_decimal(&mut out, pid as u64);
    push_str(&mut out, ".txt");
    out
}

/// The banner's first line: version, build profile, platform, process
/// id, log threshold and wall-clock time.
pub open spec fn banner_text(version: Seq<char>, debug: bool, os: Seq<char>, arch: Seq<char>, pid: nat, wall: Seq<char>) -> Seq<char> {
    "--- Ferail (gpui) "@ + version + seq![' ', '('] + (if debug {
        "debug"@
    } else {
        "release"@
    }) + seq![',', ' '] + os + seq!['/'] + arch + ") pid="@ + decimal(pid) + " log>="@ + decimal(
        LOG_THRESHOLD as nat,
    ) + seq![' '] + wall + " ---"@
}

/// The startup banner line.
pub fn startup_banner(version: &str, debug: bool, os: &str, arch: &str, pid: u32, wall: &str) -> (r:
    String)
    ensures
        r@ == banner_text(version@, debug, os@, arch@, pid as nat, wall@),
{
    let mut out = String::new();
    push_str(&mut out, "--- Ferail (gpui) ");
    push_str(&mut out, version);
    push_char(&mut out, ' ');
    push_char(&mut out, '(');
    if debug {
        push_str(&mut out, "debug");
    } else {
        push_str(&mut out, "release");
    }
    push_char(&mut out, ',');
    push_char(&mut out, ' ');
    push_str(&mut out, os);
    push_char(&mut out, '/');
    push_str(&mut out, arch);
    push_str(&mut out, ") pid=");
    push_decimal(&mut out, pid as u64);
    push_str(&mut out, " log>=");
    push_decimal(&mut out, LOG_THRESHOLD as u64);
    push_char(&mut out, ' ');
    push_str(&mut out, wall);
    push_str(&mut out, " ---");
    assert(out@ =~= banner_text(version@, debug, os@, arch@, pid as nat, wall@));
    out
}

/// The banner's arguments line: `args: <none>`, or the arguments joined
/// by spaces.
pub fn args_line(args: &Vec<String>) -> (r: String)
    ensures
        r@ == if args.len() == 0 {
            "args: <none>"@
        } else {
            "args: "@ + crate::strings::join_seq(crate::strings::strs_view(args@), seq![' '])
        },
{
    let mut out = String::new();
    if args.len() == 0 {
        push_str(&mut out, "args: <none>");
    } else {
        push_str(&mut out, "args: ");
        let joined = crate::strings::join_strings(args, ' ');
        push_str(&mut out, joined.as_str());
    }
    out
}

} // verus!
