//! The command line: which subcommand the arguments name, and how the
//! `du` and `thumb` subcommands read their options. Running them (file
//! system walks, printing, exit codes) stays with the caller.

use vstd::prelude::*;

use crate::strings::{chars_eq_str, chars_of, string_of, strs_view};

verus! {

/// Whether `c` is an ASCII digit.
pub open spec fn is_digit(c: char) -> bool {
    '0' <= c && c <= '9'
}

/// The value of a string of ASCII digits.
pub open spec fn digits_value(d: Seq<char>) -> nat
    decreases d.len(),
{
    if d.len() == 0 {
        0
    } else {
        digits_value(d.drop_last()) * 10 + ((d.last() as int - '0' as int) as nat)
    }
}

/// Whether every character is an ASCII digit.
pub open spec fn all_digits(d: Seq<char>) -> bool {
    forall|i: int| 0 <= i < d.len() ==> is_digit(#[trigger] d[i])
}

/// What `str::parse` gives for an unsigned integer type whose largest
/// value is `max`: an optional `+`, then one or more ASCII digits whose
/// value fits; anything else is an error.
pub open spec fn parse_unsigned(s: Seq<char>, max: nat) -> Option<nat> {
    let d = if s.len() > 0 && s[0] == '+' {
        s.drop_first()
    } else {
        s
    };
    if d.len() > 0 && all_digits(d) && digits_value(d) <= max {
        Some(digits_value(d))
    } else {
        None
    }
}

proof fn lemma_digits_value_grows(d: Seq<char>, i: int)
    requires
        0 <= i <= d.len(),
        forall|k: int| 0 <= k < d.len() ==> is_digit(#[trigger] d[k]),
    ensures
        digits_value(d.take(i)) <= digits_value(d),
    decreases d.len() - i,
{
    if i < d.len() {
        lemma_digits_value_grows(d, i + 1);
        let t = d.take(i + 1);
        assert(t.drop_last() =~= d.take(i));
        assert(t.last() == d[i]);
        assert(is_digit(d[i]));
    } else {
        assert(d.take(i) =~= d);
    }
}

/// Parse an unsigned decimal the way `str::parse` does for a type whose
/// largest value is `max`: [`parse_unsigned`].
fn parse_unsigned_upto(s: &str, max: u64) -> (r: Option<u64>)
    ensures
        match r {
            Some(v) => parse_unsigned(s@, max as nat) == Some(v as nat),
            None => parse_unsigned(s@, max as nat) is None,
        },
{
    let c = chars_of(s);
    let start: usize = if c.len() > 0 && c[0] == '+' {
        1
    } else {
        0
    };
    let ghost d = if s@.len() > 0 && s@[0] == '+' {
        s@.drop_first()
    } else {
        s@
    };
    assert(d =~= c@.skip(start as int));
    if start >= c.len() {
        return None;
    }
    let mut acc: u64 = 0;
    let mut i: usize = start;
    while i < c.len()
        invariant
            start <= i <= c.len(),
            d == c@.skip(start as int),
            d == (if s@.len() > 0 && s@[0] == '+' {
                s@.drop_first()
            } else {
                s@
            }),
            d.len() > 0,
            acc as nat == digits_value(d.take(i - start)),
            acc <= max,
            forall|k: int| 0 <= k < i - start ==> is_digit(#[trigger] d[k]),
        decreases c.len() - i,
    {
        let ch = c[i];
        assert(d[i - start] == ch);
        if !('0' <= ch && ch <= '9') {
            assert(!is_digit(d[i - start]));
            assert(!all_digits(d));
            return None;
        }
        let digit: u64 = (ch as u32 - '0' as u32) as u64;
        let next: u128 = (acc as u128) * 10 + (digit as u128);
        let ghost t = d.take(i - start + 1);
        assert(t.drop_last() =~= d.take(i - start));
        assert(t.last() == ch);
        assert(next == digits_value(t));
        if next > max as u128 {
            proof {
                if all_digits(d) {
                    lemma_digits_value_grows(d, i - start + 1);
                    assert(digits_value(d) > max);
                }
            }
            return None;
        }
        acc = next as u64;
        i = i + 1;
    }
    assert(d.take(i - start) =~= d);
    Some(acc)
}

/// `str::parse::<usize>`, as its documentation describes it: an optional
/// `+`, then only digits, and a value that fits.
fn parse_usize(s: &str) -> (r: Option<usize>)
    ensures
        match r {
            Some(v) => parse_unsigned(s@, usize::MAX as nat) == Some(v as nat),
            None => parse_unsigned(s@, usize::MAX as nat) is None,
        },
{
    match parse_unsigned_upto(s, usize::MAX as u64) {
        Some(v) => Some(v as usize),
        None => None,
    }
}

/// `str::parse::<u32>`, with the same grammar.
fn parse_u32(s: &str) -> (r: Option<u32>)
    ensures
        match r {
            Some(v) => parse_unsigned(s@, u32::MAX as nat) == Some(v as nat),
            None => parse_unsigned(s@, u32::MAX as nat) is None,
        },
{
    match parse_unsigned_upto(s, u32::MAX as u64) {
        Some(v) => Some(v as u32),
        None => None,
    }
}

/// `v` clamped into `lo..=hi`.
pub open spec fn clamp(v: int, lo: int, hi: int) -> int {
    if v < lo {
        lo
    } else if v > hi {
        hi
    } else {
        v
    }
}

/// A subcommand of the binary.
#[derive(Clone, Copy, PartialEq, Eq, Debug, Structural)]
pub enum CliCommand {
    /// No subcommand: open the file manager (flags go to the GUI).
    Gui,
    Magic,
    DiskUsage,
    Thumb,
    Doctor,
    ElevatedOp,
    ElevatedTrash,
    PreviewBroker,
    Help,
    /// A bare word that names no subcommand: print help, exit 2.
    Unknown,
}

/// The subcommand named by the first argument.
pub open spec fn command_of(first: Seq<char>) -> CliCommand {
    if first == "magic"@ {
        CliCommand::Magic
    } else if first == "du"@ || first == "disk-usage"@ {
        CliCommand::DiskUsage
    } else if first == "thumb"@ || first == "thumbnail"@ {
        CliCommand::Thumb
    } else if first == "doctor"@ || first == "--doctor"@ {
        CliCommand::Doctor
    } else if first == "--elevated-op"@ {
        CliCommand::ElevatedOp
    } else if first == "--elevated-trash"@ {
        CliCommand::ElevatedTrash
    } else if first == "--preview-broker"@ {
        CliCommand::PreviewBroker
    } else if first == "help"@ || first == "-h"@ || first == "--help"@ {
        CliCommand::Help
    } else if !(first.len() > 0 && first[0] == '-') {
        CliCommand::Unknown
    } else {
        CliCommand::Gui
    }
}

/// The subcommand the arguments (program name excluded) ask for.
pub fn cli_subcommand(args: &Vec<String>) -> (r: CliCommand)
    ensures
        r == if args.len() == 0 {
            CliCommand::Gui
        } else {
            command_of(args@[0]@)
        },
{
    if args.len() == 0 {
        return CliCommand::Gui;
    }
    let v = chars_of(args[0].as_str());
    if chars_eq_str(&v, "magic") {
        CliCommand::Magic
    } else if chars_eq_str(&v, "du") || chars_eq_str(&v, "disk-usage") {
        CliCommand::DiskUsage
    } else if chars_eq_str(&v, "thumb") || chars_eq_str(&v, "thumbnail") {
        CliCommand::Thumb
    } else if chars_eq_str(&v, "doctor") || chars_eq_str(&v, "--doctor") {
        CliCommand::Doctor
    } else if chars_eq_str(&v, "--elevated-op") {
        CliCommand::ElevatedOp
    } else if chars_eq_str(&v, "--elevated-trash") {
        CliCommand::ElevatedTrash
    } else if chars_eq_str(&v, "--preview-broker") {
        CliCommand::PreviewBroker
    } else if chars_eq_str(&v, "help") || chars_eq_str(&v, "-h") || chars_eq_str(&v, "--help") {
        CliCommand::Help
    } else if !(v.len() > 0 && v[0] == '-') {
        CliCommand::Unknown
    } else {
        CliCommand::Gui
    }
}

/// Whether `s` starts with `p`.
pub open spec fn has_prefix(s: Seq<char>, p: Seq<char>) -> bool {
    p.len() <= s.len() && s.subrange(0, p.len() as int) == p
}

fn strip_prefix(s: &str, p: &str) -> (r: Option<String>)
    ensures
        match r {
            Some(rest) => has_prefix(s@, p@) && rest@ == s@.subrange(p@.len() as int, s@.len() as int),
            None => !has_prefix(s@, p@),
        },
{
    let v = chars_of(s);
    let q = chars_of(p);
    if q.len() > v.len() {
        return None;
    }
    let mut i: usize = 0;
    while i < q.len()
        invariant
            v@ == s@,
            q@ == p@,
            q.len() <= v.len(),
            i <= q.len(),
            forall|k: int| 0 <= k < i ==> v@[k] == q@[k],
        decreases q.len() - i,
    {
        if v[i] != q[i] {
            proof {
                if has_prefix(s@, p@) {
                    assert(v@.subrange(0, q.len() as int)[i as int] == v@[i as int]);
                }
            }
            return None;
        }
        i = i + 1;
    }
    assert(v@.subrange(0, q.len() as int) =~= q@);
    let mut rest: Vec<char> = Vec::new();
    let mut j: usize = q.len();
    while j < v.len()
        invariant
            q.len() <= j <= v.len(),
            rest@ == v@.subrange(q.len() as int, j as int),
        decreases v.len() - j,
    {
        rest.push(v[j]);
        assert(v@.subrange(q.len() as int, j + 1) =~= v@.subrange(q.len() as int, j as int).push(
            v@[j as int],
        ));
        j = j + 1;
    }
    Some(string_of(&rest))
}

/// Options of `du`: how many entries to list, whether to descend into
/// packages, and the paths to summarize.
pub struct DuArgs {
    pub top: usize,
    pub packages: bool,
    pub paths: Vec<String>,
}

/// What `du`'s arguments ask for.
pub enum DuRequest {
    Run(DuArgs),
    /// `-h` / `--help`: print the usage line, exit 0.
    Help,
    /// `--top` at the end with no value.
    MissingTop,
    /// No path given: print the usage line, exit 2.
    NoPath,
}

/// The state of reading `du`'s arguments: the options so far, or the
/// request the reading ended on.
pub enum DuState {
    Reading(nat, bool, Seq<Seq<char>>),
    Done(DuRequestV),
}

/// A `du` request as plain values.
pub enum DuRequestV {
    Run(nat, bool, Seq<Seq<char>>),
    Help,
    MissingTop,
    NoPath,
}

/// The next `--top` value: the parsed number clamped into 1..=200, or the
/// previous value when it does not parse.
pub open spec fn next_top(value: Seq<char>, top: nat) -> nat {
    match parse_unsigned(value, usize::MAX as nat) {
        Some(n) => clamp(n as int, 1, 200) as nat,
        None => clamp(top as int, 1, 200) as nat,
    }
}

/// Reading `du`'s arguments from position `i` on.
pub open spec fn du_from(args: Seq<Seq<char>>, i: nat, top: nat, packages: bool, paths: Seq<
    Seq<char>,
>) -> DuRequestV
    decreases args.len() - i,
{
    if i >= args.len() {
        if paths.len() == 0 {
            DuRequestV::NoPath
        } else {
            DuRequestV::Run(top, packages, paths)
        }
    } else {
        let a = args[i as int];
        if a == "--packages"@ {
            du_from(args, i + 1, top, true, paths)
        } else if a == "--top"@ {
            if i + 1 >= args.len() {
                DuRequestV::MissingTop
            } else {
                du_from(args, i + 2, next_top(args[(i + 1) as int], top), packages, paths)
            }
        } else if has_prefix(a, "--top="@) {
            du_from(
                args,
                i + 1,
                next_top(a.subrange(6, a.len() as int), top),
                packages,
                paths,
            )
        } else if a == "-h"@ || a == "--help"@ {
            DuRequestV::Help
        } else {
            du_from(args, i + 1, top, packages, paths.push(a))
        }
    }
}

/// A parsed `du` request as plain values.
pub open spec fn du_request_view(r: DuRequest) -> DuRequestV {
    match r {
        DuRequest::Run(a) => DuRequestV::Run(a.top as nat, a.packages, strs_view(a.paths@)),
        DuRequest::Help => DuRequestV::Help,
        DuRequest::MissingTop => DuRequestV::MissingTop,
        DuRequest::NoPath => DuRequestV::NoPath,
    }
}

fn top_value(value: &str, top: usize) -> (r: usize)
    requires
        1 <= top <= 200,
    ensures
        r as nat == next_top(value@, top as nat),
        1 <= r <= 200,
{
    let n = match parse_usize(value) {
        Some(n) => n,
        None => top,
    };
    if n < 1 {
        1
    } else if n > 200 {
        200
    } else {
        n
    }
}

/// Read `du`'s options (the arguments after the subcommand): `--packages`,
/// `--top N` or `--top=N` (clamped into 1..=200; a value that does not
/// parse keeps the previous one), `-h`/`--help`, and paths. The default is
/// the top 20 entries, without descending into packages.
pub fn parse_du_args(args: &Vec<String>) -> (r: DuRequest)
    ensures
        du_request_view(r) == du_from(strs_view(args@), 0, 20, false, Seq::empty()),
{
    let ghost sv = strs_view(args@);
    let mut top: usize = 20;
    let mut packages = false;
    let mut paths: Vec<String> = Vec::new();
    assert(strs_view(paths@) =~= Seq::<Seq<char>>::empty());
    let mut i: usize = 0;
    while i < args.len()
        invariant
            sv == strs_view(args@),
            i <= args.len() + 1,
            1 <= top <= 200,
            du_from(sv, i as nat, top as nat, packages, strs_view(paths@)) == du_from(
                sv,
                0,
                20,
                false,
                Seq::empty(),
            ),
        decreases args.len() + 1 - i,
    {
        let a = args[i].as_str();
        let v = chars_of(a);
        assert(sv[i as int] == a@);
        if chars_eq_str(&v, "--packages") {
            packages = true;
            i = i + 1;
        } else if chars_eq_str(&v, "--top") {
            if i + 1 >= args.len() {
                return DuRequest::MissingTop;
            }
            assert(sv[i + 1] == args@[i + 1]@);
            top = top_value(args[i + 1].as_str(), top);
            i = i + 2;
        } else {
            match strip_prefix(a, "--top=") {
                Some(rest) => {
                    proof {
                        reveal_strlit("--top=");
                    }
                    top = top_value(rest.as_str(), top);
                    i = i + 1;
                },
                None => {
                    if chars_eq_str(&v, "-h") || chars_eq_str(&v, "--help") {
                        return DuRequest::Help;
                    }
                    let ghost before = strs_view(paths@);
                    paths.push(string_of(&v));
                    assert(strs_view(paths@) =~= before.push(a@));
                    i = i + 1;
                },
            }
        }
    }
    if paths.len() == 0 {
        DuRequest::NoPath
    } else {
        DuRequest::Run(DuArgs { top, packages, paths })
    }
}

/// Options of `thumb`: the input file, the output PNG, the largest edge
/// in pixels, and whether the preview pane's image is wanted rather than
/// the grid thumbnail.
pub struct ThumbArgs {
    pub input: String,
    pub out: String,
    pub size: u32,
    pub preview: bool,
}

/// What `thumb`'s arguments ask for.
pub enum ThumbRequest {
    Run(ThumbArgs),
    Help,
    MissingOut,
    MissingSize,
    /// A second positional argument.
    ExtraPositional(String),
    /// No input path: print the usage line, exit 2.
    NoInput,
}

/// A `thumb` request as plain values.
pub enum ThumbRequestV {
    Run(Seq<char>, Seq<char>, nat, bool),
    Help,
    MissingOut,
    MissingSize,
    ExtraPositional(Seq<char>),
    NoInput,
}

/// The next `--size` value: the parsed number clamped into 16..=4096, or
/// the previous value when it does not parse.
pub open spec fn next_size(value: Seq<char>, size: nat) -> nat {
    match parse_unsigned(value, u32::MAX as nat) {
        Some(n) => clamp(n as int, 16, 4096) as nat,
        None => clamp(size as int, 16, 4096) as nat,
    }
}

/// Reading `thumb`'s arguments from position `i` on.
pub open spec fn thumb_from(
    args: Seq<Seq<char>>,
    i: nat,
    out: Option<Seq<char>>,
    size: nat,
    preview: bool,
    input: Option<Seq<char>>,
) -> ThumbRequestV
    decreases args.len() - i,
{
    if i >= args.len() {
        match input {
            None => ThumbRequestV::NoInput,
            Some(p) => ThumbRequestV::Run(
                p,
                match out {
                    Some(o) => o,
                    None => "thumb.png"@,
                },
                size,
                preview,
            ),
        }
    } else {
        let a = args[i as int];
        if a == "--out"@ {
            if i + 1 >= args.len() {
                ThumbRequestV::MissingOut
            } else {
                thumb_from(args, i + 2, Some(args[(i + 1) as int]), size, preview, input)
            }
        } else if has_prefix(a, "--out="@) {
            thumb_from(args, i + 1, Some(a.subrange(6, a.len() as int)), size, preview, input)
        } else if a == "--size"@ {
            if i + 1 >= args.len() {
                ThumbRequestV::MissingSize
            } else {
                thumb_from(args, i + 2, out, next_size(args[(i + 1) as int], size), preview, input)
            }
        } else if has_prefix(a, "--size="@) {
            thumb_from(
                args,
                i + 1,
                out,
                next_size(a.subrange(7, a.len() as int), size),
                preview,
                input,
            )
        } else if a == "--preview"@ {
            thumb_from(args, i + 1, out, size, true, input)
        } else if a == "-h"@ || a == "--help"@ {
            ThumbRequestV::Help
        } else if input is Some {
            ThumbRequestV::ExtraPositional(a)
        } else {
            thumb_from(args, i + 1, out, size, preview, Some(a))
        }
    }
}

/// A parsed `thumb` request as plain values.
pub open spec fn thumb_request_view(r: ThumbRequest) -> ThumbRequestV {
    match r {
        ThumbRequest::Run(a) => ThumbRequestV::Run(a.input@, a.out@, a.size as nat, a.preview),
        ThumbRequest::Help => ThumbRequestV::Help,
        ThumbRequest::MissingOut => ThumbRequestV::MissingOut,
        ThumbRequest::MissingSize => ThumbRequestV::MissingSize,
        ThumbRequest::ExtraPositional(a) => ThumbRequestV::ExtraPositional(a@),
        ThumbRequest::NoInput => ThumbRequestV::NoInput,
    }
}

fn size_value(value: &str, size: u32) -> (r: u32)
    ensures
        r as nat == next_size(value@, size as nat),
        16 <= r <= 4096,
{
    let n = match parse_u32(value) {
        Some(n) => n,
        None => size,
    };
    if n < 16 {
        16
    } else if n > 4096 {
        4096
    } else {
        n
    }
}

/// The view of an optional string.
pub open spec fn opt_seq(o: Option<String>) -> Option<Seq<char>> {
    match o {
        Some(s) => Some(s@),
        None => None,
    }
}

/// Read `thumb`'s options: `--out P` / `--out=P` (default `thumb.png`),
/// `--size N` / `--size=N` (clamped into 16..=4096, default 512; a value
/// that does not parse keeps the previous one), `--preview`,
/// `-h`/`--help`, and exactly one input path.
pub fn parse_thumb_args(args: &Vec<String>) -> (r: ThumbRequest)
    ensures
        thumb_request_view(r) == thumb_from(strs_view(args@), 0, None, 512, false, None),
{
    let ghost sv = strs_view(args@);
    let mut out: Option<String> = None;
    let mut size: u32 = 512;
    let mut preview = false;
    let mut input: Option<String> = None;
    let mut i: usize = 0;
    while i < args.len()
        invariant
            sv == strs_view(args@),
            i <= args.len() + 1,
            16 <= size <= 4096,
            thumb_from(sv, i as nat, opt_seq(out), size as nat, preview, opt_seq(input))
                == thumb_from(sv, 0, None, 512, false, None),
        decreases args.len() + 1 - i,
    {
        let a = args[i].as_str();
        let v = chars_of(a);
        assert(sv[i as int] == a@);
        if chars_eq_str(&v, "--out") {
            if i + 1 >= args.len() {
                return ThumbRequest::MissingOut;
            }
            assert(sv[i + 1] == args@[i + 1]@);
            out = Some(args[i + 1].clone());
            i = i + 2;
        } else {
            match strip_prefix(a, "--out=") {
                Some(rest) => {
                    proof {
                        reveal_strlit("--out=");
                    }
                    out = Some(rest);
                    i = i + 1;
                },
                None => {
                    if chars_eq_str(&v, "--size") {
                        if i + 1 >= args.len() {
                            return ThumbRequest::MissingSize;
                        }
                        assert(sv[i + 1] == args@[i + 1]@);
                        size = size_value(args[i + 1].as_str(), size);
                        i = i + 2;
                    } else {
                        match strip_prefix(a, "--size=") {
                            Some(rest) => {
                                proof {
                                    reveal_strlit("--size=");
                                }
                                size = size_value(rest.as_str(), size);
                                i = i + 1;
                            },
                            None => {
                                if chars_eq_str(&v, "--preview") {
                                    preview = true;
                                    i = i + 1;
                                } else if chars_eq_str(&v, "-h") || chars_eq_str(&v, "--help") {
                                    return ThumbRequest::Help;
                                } else if input.is_some() {
                                    return ThumbRequest::ExtraPositional(string_of(&v));
                                } else {
                                    input = Some(string_of(&v));
                                    i = i + 1;
                                }
                            },
                        }
                    }
                },
            }
        }
    }
    match input {
        None => ThumbRequest::NoInput,
        Some(p) => {
            let o = match out {
                Some(o) => o,
                None => String::from_str("thumb.png"),
            };
            ThumbRequest::Run(ThumbArgs { input: p, out: o, size, preview })
        },
    }
}

/// What a path is, as `symlink_metadata` reports it.
#[derive(Clone, Copy, PartialEq, Eq, Debug, Structural)]
pub enum PathKind {
    Directory,
    Symlink,
    Other,
}

/// The format label printed when no magic bytes are recognized: `Folder`,
/// `Symlink`, the upper-cased extension, or `File`.
pub open spec fn fallback_label(kind: Option<PathKind>, ext: Option<Seq<char>>) -> Seq<char> {
    match kind {
        Some(PathKind::Directory) => "Folder"@,
        Some(PathKind::Symlink) => "Symlink"@,
        _ => match ext {
            Some(e) => if e.len() > 0 {
                crate::strings::uppercase(e)
            } else {
                "File"@
            },
            None => "File"@,
        },
    }
}

/// The fallback format label of a path whose kind (if its metadata could
/// be read) and extension (if it has a readable one) are given.
pub fn extension_fallback_label(kind: Option<PathKind>, ext: Option<&str>) -> (r: String)
    ensures
        r@ == fallback_label(kind, match ext {
            Some(e) => Some(e@),
            None => None,
        }),
{
    match kind {
        Some(PathKind::Directory) => String::from_str("Folder"),
        Some(PathKind::Symlink) => String::from_str("Symlink"),
        _ => match ext {
            Some(e) => if e.unicode_len() > 0 {
                crate::strings::to_uppercase(e)
            } else {
                String::from_str("File")
            },
            None => String::from_str("File"),
        },
    }
}

/// Whatever the arguments, a `du` run lists between 1 and 200 entries.
pub proof fn lemma_du_top_in_range(args: Seq<Seq<char>>, i: nat, top: nat, packages: bool, paths: Seq<Seq<char>>)
    requires
        1 <= top <= 200,
    ensures
        du_from(args, i, top, packages, paths) matches DuRequestV::Run(t, _, _) ==> 1 <= t <= 200,
    decreases args.len() - i,
{
    if i < args.len() {
        let a = args[i as int];
        if a == "--packages"@ {
            lemma_du_top_in_range(args, i + 1, top, true, paths);
        } else if a == "--top"@ {
            if i + 1 < args.len() {
                lemma_du_top_in_range(args, i + 2, next_top(args[(i + 1) as int], top), packages, paths);
            }
        } else if has_prefix(a, "--top="@) {
            lemma_du_top_in_range(args, i + 1, next_top(a.subrange(6, a.len() as int), top), packages, paths);
        } else if a == "-h"@ || a == "--help"@ {
        } else {
            lemma_du_top_in_range(args, i + 1, top, packages, paths.push(a));
        }
    }
}

/// Whatever the arguments, a `thumb` run asks for an edge between 16 and
/// 4096 pixels.
pub proof fn lemma_thumb_size_in_range(
    args: Seq<Seq<char>>,
    i: nat,
    out: Option<Seq<char>>,
    size: nat,
    preview: bool,
    input: Option<Seq<char>>,
)
    requires
        16 <= size <= 4096,
    ensures
        thumb_from(args, i, out, size, preview, input) matches ThumbRequestV::Run(_, _, s, _) ==> 16 <= s
            <= 4096,
    decreases args.len() - i,
{
    if i < args.len() {
        let a = args[i as int];
        if a == "--out"@ {
            if i + 1 < args.len() {
                lemma_thumb_size_in_range(args, i + 2, Some(args[(i + 1) as int]), size, preview, input);
            }
        } else if has_prefix(a, "--out="@) {
            lemma_thumb_size_in_range(args, i + 1, Some(a.subrange(6, a.len() as int)), size, preview, input);
        } else if a == "--size"@ {
            if i + 1 < args.len() {
                lemma_thumb_size_in_range(args, i + 2, out, next_size(args[(i + 1) as int], size), preview, input);
            }
        } else if has_prefix(a, "--size="@) {
            lemma_thumb_size_in_range(args, i + 1, out, next_size(a.subrange(7, a.len() as int), size), preview, input);
        } else if a == "--preview"@ {
            lemma_thumb_size_in_range(args, i + 1, out, size, true, input);
        } else if a == "-h"@ || a == "--help"@ {
        } else if input is Some {
        } else {
            lemma_thumb_size_in_range(args, i + 1, out, size, preview, Some(a));
        }
    }
}

} // verus!
