use vstd::prelude::*;
use vstd::string::StringExecFns;
use vstd::utf8::{encode_utf8, encode_scalar, valid_utf8, decode_utf8};
use crate::shell::chars_of;
use crate::builtins::{FileRead, utf8_bytes, decode_text};
use crate::command::strings_view;

verus! {

/// What the flag parser reads from `raw` when it takes out, in turn, the
/// boolean flag `first`, the boolean flag `second`, the number given to
/// `number`, and the positional arguments: `None` where the arguments do not
/// parse; each part `None` where taking it out fails.
pub uninterp spec fn parsed_flags(raw: Seq<Seq<char>>, first: Seq<char>, second: Seq<char>, number: Seq<char>) -> Option<
    (Option<Option<bool>>, Option<Option<bool>>, Option<Option<u32>>, Option<Seq<Seq<char>>>),
>;

/// What `read_flags` returns, as plain values.
pub open spec fn flags_view(
    r: Option<(Option<Option<bool>>, Option<Option<bool>>, Option<Option<u32>>, Option<Vec<String>>)>,
) -> Option<(Option<Option<bool>>, Option<Option<bool>>, Option<Option<u32>>, Option<Seq<Seq<char>>>)> {
    match r {
        Some((a, b, c, d)) => Some((a, b, c, match d {
            Some(v) => Some(strings_view(v@)),
            None => None,
        })),
        None => None,
    }
}

/// Relies on `dia_args::parse_strings`, then `Args::take::<bool>` for two
/// flags, `Args::take::<u32>` for a number and `Args::take_args`, in that
/// order: what they give depends on the arguments and the keys alone.
#[verifier::external_body]
fn read_flags(raw: &Vec<String>, first: &str, second: &str, number: &str) -> (r: Option<
    (Option<Option<bool>>, Option<Option<bool>>, Option<Option<u32>>, Option<Vec<String>>),
>)
    ensures
        flags_view(r) == parsed_flags(strings_view(raw@), first@, second@, number@),
{
    let mut args = dia_args::parse_strings(raw.iter()).ok()?;
    let a = args.take::<bool>(&[first]).ok();
    let b = args.take::<bool>(&[second]).ok();
    let c = args.take::<u32>(&[number]).ok();
    let d = args.take_args().ok();
    Some((a, b, c, d))
}

/// Whether the regex crate accepts `pattern`, with the given case folding
/// and line mode.
pub uninterp spec fn regex_compiles(pattern: Seq<char>, case_insensitive: bool, multi_line: bool) -> bool;

/// The byte spans of the successive non-overlapping matches of `pattern` in
/// `haystack`, as the regex crate finds them.
pub uninterp spec fn regex_spans(pattern: Seq<char>, case_insensitive: bool, multi_line: bool, haystack: Seq<char>) -> Seq<
    (usize, usize),
>;

/// Byte spans that lie within a text of `len` bytes, each starting no
/// earlier than the one before it ends.
pub open spec fn spans_in_order(spans: Seq<(usize, usize)>, len: int) -> bool {
    &&& forall|k: int| 0 <= k < spans.len() ==> #[trigger] spans[k].0 <= spans[k].1 <= len
    &&& forall|k: int| 0 <= k < spans.len() - 1 ==> #[trigger] spans[k].1 <= spans[k + 1].0
}

/// Relies on `regex::RegexBuilder::build`, which succeeds exactly on the
/// patterns the crate accepts, and on `Regex::find_iter`: the successive
/// non-overlapping matches in the text, as byte offsets, in order.
#[verifier::external_body]
fn find_matches(pattern: &str, case_insensitive: bool, multi_line: bool, haystack: &str) -> (r: Option<Vec<(usize, usize)>>)
    ensures
        r is Some <==> regex_compiles(pattern@, case_insensitive, multi_line),
        r is Some ==> r->Some_0@ == regex_spans(pattern@, case_insensitive, multi_line, haystack@),
        r is Some ==> spans_in_order(r->Some_0@, encode_utf8(haystack@).len() as int),
{
    let rx = regex::RegexBuilder::new(pattern).case_insensitive(case_insensitive).multi_line(multi_line).build().ok()?;
    Some(rx.find_iter(haystack).map(|m| (m.start(), m.end())).collect())
}

/// Whether a character is alphabetic or numeric in Unicode.
pub uninterp spec fn alphanumeric(c: char) -> bool;

/// Relies on `char::is_alphanumeric`: whether the character is alphabetic
/// or numeric, which depends on the character alone.
#[verifier::external_body]
fn is_alphanumeric(c: char) -> (r: bool)
    ensures
        r == alphanumeric(c),
{
    c.is_alphanumeric()
}

/// Where the `k`-th character of `t` starts in its UTF-8 bytes.
pub open spec fn byte_offset(t: Seq<char>, k: int) -> int {
    encode_utf8(t.take(k)).len() as int
}

/// Whether the byte span `start .. end` of the text `t` stands as a whole
/// word: the character that ends right at `start`, and the one that starts
/// right at `end`, are not alphanumeric, where there are such characters.
pub open spec fn whole_word_in(t: Seq<char>, start: int, end: int) -> bool {
    &&& forall|k: int| 1 <= k <= t.len() && #[trigger] byte_offset(t, k) == start ==> !alphanumeric(t[k - 1])
    &&& forall|k: int| 0 <= k < t.len() && #[trigger] byte_offset(t, k) == end ==> !alphanumeric(t[k])
}

/// Whether the span `start .. end` of the UTF-8 bytes `h` stands as a whole
/// word in the text they encode.
pub open spec fn is_whole_word(h: Seq<u8>, start: int, end: int) -> bool {
    whole_word_in(decode_utf8(h), start, end)
}

/// Encoding two texts one after the other gives their encodings one after
/// the other.
pub proof fn lemma_encode_concat(a: Seq<char>, b: Seq<char>)
    ensures
        encode_utf8(a + b) == encode_utf8(a) + encode_utf8(b),
    decreases a.len(),
{
    if a.len() == 0 {
        assert(a + b =~= b);
        assert(encode_utf8(a) + encode_utf8(b) =~= encode_utf8(b));
    } else {
        assert((a + b).drop_first() =~= a.drop_first() + b);
        assert((a + b)[0] == a[0]);
        lemma_encode_concat(a.drop_first(), b);
        assert(encode_utf8(a + b) =~= encode_utf8(a) + encode_utf8(b));
    }
}

fn utf8_len(c: char) -> (r: usize)
    ensures
        r == encode_scalar(c as u32).len(),
{
    proof {
        vstd::utf8::char_is_scalar(c);
    }
    let v = c as u32;
    if v <= 0x7F {
        1
    } else if v <= 0x7FF {
        2
    } else if v <= 0xFFFF {
        3
    } else {
        4
    }
}

/// The byte offset of each character of `t`, and of its end.
fn byte_offsets(t: &Vec<char>, h: &Vec<u8>) -> (r: Vec<usize>)
    requires
        h@ == encode_utf8(t@),
    ensures
        r@.len() == t@.len() + 1,
        forall|k: int| 0 <= k <= t@.len() ==> #[trigger] r@[k] as int == byte_offset(t@, k),
{
    let mut r: Vec<usize> = vec![0];
    let mut off: usize = 0;
    let mut k: usize = 0;
    assert(t@.take(0) =~= Seq::<char>::empty());
    while k < t.len()
        invariant
            h@ == encode_utf8(t@),
            k <= t@.len(),
            r@.len() == k + 1,
            off == byte_offset(t@, k as int),
            forall|j: int| 0 <= j <= k ==> #[trigger] r@[j] as int == byte_offset(t@, j),
        decreases t@.len() - k,
    {
        proof {
            assert(t@.take(k + 1) =~= t@.take(k as int) + seq![t@[k as int]]);
            lemma_encode_concat(t@.take(k as int), seq![t@[k as int]]);
            let one = seq![t@[k as int]];
            assert(one[0] == t@[k as int]);
            assert(one.drop_first() =~= Seq::<char>::empty());
            assert(encode_utf8(one.drop_first()) == Seq::<u8>::empty());
            assert(encode_utf8(one) =~= encode_scalar(t@[k as int] as u32));
            assert(t@ =~= t@.take(k + 1) + t@.skip(k + 1));
            lemma_encode_concat(t@.take(k + 1), t@.skip(k + 1));
            assert(byte_offset(t@, k + 1) == off + encode_scalar(t@[k as int] as u32).len());
            assert(byte_offset(t@, k + 1) <= h@.len());
        }
        let n = utf8_len(t[k]);
        assert(h@.len() <= usize::MAX) by {
            assert(h@.len() == h.len());
        }
        off = off + n;
        r.push(off);
        k = k + 1;
    }
    r
}

/// The end of the line that starts at `pos`: just after its newline, or the
/// end of the text.
pub open spec fn line_end(h: Seq<u8>, pos: int) -> int
    decreases h.len() - pos,
{
    if 0 <= pos < h.len() {
        if h[pos] == 10 {
            pos + 1
        } else {
            line_end(h, pos + 1)
        }
    } else {
        pos
    }
}

pub proof fn lemma_line_end(h: Seq<u8>, pos: int)
    requires
        0 <= pos < h.len(),
    ensures
        pos < line_end(h, pos) <= h.len(),
    decreases h.len() - pos,
{
    if h[pos] != 10 {
        if pos + 1 < h.len() {
            lemma_line_end(h, pos + 1);
        } else {
            assert(line_end(h, pos + 1) == pos + 1);
        }
    }
}

/// Whether a span that counts starts in the line `lo .. hi`.
pub open spec fn line_matches(h: Seq<u8>, spans: Seq<(usize, usize)>, lo: int, hi: int, whole_words: bool) -> bool {
    exists|k: int|
        0 <= k < spans.len() && lo <= #[trigger] spans[k].0 < hi && (!whole_words || is_whole_word(
            h,
            spans[k].0 as int,
            spans[k].1 as int,
        ))
}

/// The lines that grep keeps from `pos` on, with `remaining` lines still to
/// keep: a line in which a counted match starts sets `remaining` to `after`;
/// each line kept while `remaining` is positive uses up one.
pub open spec fn grep_from(
    h: Seq<u8>,
    spans: Seq<(usize, usize)>,
    pos: int,
    remaining: nat,
    whole_words: bool,
    after: nat,
) -> Seq<u8>
    decreases h.len() - pos,
{
    if 0 <= pos < h.len() {
        let e = line_end(h, pos);
        proof {
            lemma_line_end(h, pos);
        }
        let rem = if line_matches(h, spans, pos, e, whole_words) {
            after
        } else {
            remaining
        };
        if rem > 0 {
            h.subrange(pos, e) + grep_from(h, spans, e, (rem - 1) as nat, whole_words, after)
        } else {
            grep_from(h, spans, e, 0, whole_words, after)
        }
    } else {
        seq![]
    }
}

fn find_line_end(h: &Vec<u8>, pos: usize) -> (r: usize)
    requires
        pos < h@.len(),
    ensures
        r == line_end(h@, pos as int),
{
    let mut i: usize = pos;
    while i < h.len() && h[i] != 10
        invariant
            pos <= i <= h@.len(),
            line_end(h@, i as int) == line_end(h@, pos as int),
        decreases h@.len() - i,
    {
        i = i + 1;
    }
    if i < h.len() {
        i + 1
    } else {
        i
    }
}

fn is_whole_word_exec(t: &Vec<char>, offs: &Vec<usize>, start: usize, end: usize) -> (r: bool)
    requires
        offs@.len() == t@.len() + 1,
        forall|k: int| 0 <= k <= t@.len() ==> #[trigger] offs@[k] as int == byte_offset(t@, k),
    ensures
        r == whole_word_in(t@, start as int, end as int),
{
    let mut k: usize = 0;
    while k < t.len()
        invariant
            k <= t@.len(),
            offs@.len() == t@.len() + 1,
            forall|k: int| 0 <= k <= t@.len() ==> #[trigger] offs@[k] as int == byte_offset(t@, k),
            forall|j: int| 1 <= j <= k && #[trigger] byte_offset(t@, j) == start ==> !alphanumeric(t@[j - 1]),
            forall|j: int| 0 <= j < k && #[trigger] byte_offset(t@, j) == end ==> !alphanumeric(t@[j]),
        decreases t@.len() - k,
    {
        assert(offs@[k as int] as int == byte_offset(t@, k as int));
        assert(offs@[k + 1] as int == byte_offset(t@, k + 1));
        if offs[k] == end && is_alphanumeric(t[k]) {
            return false;
        }
        if offs[k + 1] == start && is_alphanumeric(t[k]) {
            return false;
        }
        k = k + 1;
    }
    true
}

fn line_has_match(
    h: &Vec<u8>,
    t: &Vec<char>,
    offs: &Vec<usize>,
    spans: &Vec<(usize, usize)>,
    lo: usize,
    hi: usize,
    whole_words: bool,
) -> (r: bool)
    requires
        t@ == decode_utf8(h@),
        offs@.len() == t@.len() + 1,
        forall|k: int| 0 <= k <= t@.len() ==> #[trigger] offs@[k] as int == byte_offset(t@, k),
    ensures
        r == line_matches(h@, spans@, lo as int, hi as int, whole_words),
{
    let mut k: usize = 0;
    while k < spans.len()
        invariant
            k <= spans@.len(),
            forall|j: int|
                0 <= j < k ==> !(lo <= #[trigger] spans@[j].0 < hi && (!whole_words || is_whole_word(
                    h@,
                    spans@[j].0 as int,
                    spans@[j].1 as int,
                ))),
            t@ == decode_utf8(h@),
            offs@.len() == t@.len() + 1,
            forall|k: int| 0 <= k <= t@.len() ==> #[trigger] offs@[k] as int == byte_offset(t@, k),
        decreases spans@.len() - k,
    {
        let (s, e) = spans[k];
        if lo <= s && s < hi && (!whole_words || is_whole_word_exec(t, offs, s, e)) {
            return true;
        }
        k = k + 1;
    }
    false
}

/// The lines of `text` that grep keeps, given the byte spans of the
/// matches: a line is kept where a match that counts starts in it (in
/// whole-word mode, one with no alphanumeric character right before or after
/// it), and so are the lines after it while fewer than `after` lines have
/// been kept since.
pub fn grep_select(text: &String, spans: &Vec<(usize, usize)>, whole_words: bool, after: u32) -> (r: Vec<u8>)
    ensures
        r@ == grep_from(encode_utf8(text@), spans@, 0, 0, whole_words, after as nat),
{
    let bytes = utf8_bytes(text.clone());
    let h = &bytes;
    let t = chars_of(text.as_str());
    proof {
        vstd::utf8::encode_utf8_decode_utf8(t@);
    }
    let offs = byte_offsets(&t, h);
    let mut out: Vec<u8> = Vec::new();
    let mut pos: usize = 0;
    let mut remaining: u32 = 0;
    while pos < h.len()
        invariant
            pos <= h@.len(),
            remaining <= after,
            h@ == bytes@,
            t@ == decode_utf8(h@),
            offs@.len() == t@.len() + 1,
            forall|k: int| 0 <= k <= t@.len() ==> #[trigger] offs@[k] as int == byte_offset(t@, k),
            out@ + grep_from(h@, spans@, pos as int, remaining as nat, whole_words, after as nat)
                == grep_from(h@, spans@, 0, 0, whole_words, after as nat),
        decreases h@.len() - pos,
    {
        let e = find_line_end(h, pos);
        proof {
            lemma_line_end(h@, pos as int);
        }
        if line_has_match(h, &t, &offs, spans, pos, e, whole_words) {
            remaining = after;
        }
        if remaining > 0 {
            let ghost before = out@;
            let mut k: usize = pos;
            while k < e
                invariant
                    pos <= k <= e <= h@.len(),
                    out@ == before + h@.subrange(pos as int, k as int),
                decreases e - k,
            {
                out.push(h[k]);
                k = k + 1;
                assert(out@ =~= before + h@.subrange(pos as int, k as int));
            }
            assert(before + (h@.subrange(pos as int, e as int) + grep_from(h@, spans@, e as int, (remaining - 1) as nat, whole_words, after as nat))
                =~= out@ + grep_from(h@, spans@, e as int, (remaining - 1) as nat, whole_words, after as nat));
            remaining = remaining - 1;
        }
        pos = e;
    }
    assert(out@ + seq![] =~= out@);
    out
}


/// The options of one `grep` call.
#[derive(Debug, Clone, PartialEq)]
pub struct GrepOptions {
    pub case_insensitive: bool,
    pub whole_words: bool,
    /// How many lines to keep from each line with a match, that one
    /// included.
    pub after: u32,
    /// The positional arguments: the pattern, then possibly a file name.
    pub positional: Vec<String>,
}

/// What `grep` options stand for.
pub struct GrepModel {
    pub case_insensitive: bool,
    pub whole_words: bool,
    pub after: u32,
    pub positional: Seq<Seq<char>>,
}

impl View for GrepOptions {
    type V = GrepModel;

    open spec fn view(&self) -> GrepModel {
        GrepModel {
            case_insensitive: self.case_insensitive,
            whole_words: self.whole_words,
            after: self.after,
            positional: strings_view(self.positional@),
        }
    }
}

pub open spec fn options_view(o: Option<GrepOptions>) -> Option<GrepModel> {
    match o {
        Some(v) => Some(v@),
        None => None,
    }
}

/// The options that the flag parser's answers give: a flag is set only where
/// it was read as true; `-A` is 1 unless a number was read for it; no
/// options where the positional arguments could not be had.
pub open spec fn options_from(
    flags: Option<(Option<Option<bool>>, Option<Option<bool>>, Option<Option<u32>>, Option<Seq<Seq<char>>>)>,
) -> Option<GrepModel> {
    match flags {
        Some((ci, ww, a, Some(p))) => Some(
            GrepModel {
                case_insensitive: ci == Some(Some(true)),
                whole_words: ww == Some(Some(true)),
                after: match a {
                    Some(Some(n)) => n,
                    _ => 1u32,
                },
                positional: p,
            },
        ),
        _ => None,
    }
}

/// The options that `grep`'s arguments give: flags `-i`, `-w` and `-A`.
pub open spec fn grep_options_of(raw: Seq<Seq<char>>) -> Option<GrepModel> {
    options_from(parsed_flags(raw, "-i"@, "-w"@, "-A"@))
}

/// Builds the options from the flag parser's answers.
pub fn grep_options_from(
    flags: Option<(Option<Option<bool>>, Option<Option<bool>>, Option<Option<u32>>, Option<Vec<String>>)>,
) -> (r: Option<GrepOptions>)
    ensures
        options_view(r) == options_from(flags_view(flags)),
{
    match flags {
        Some((case_flag, word_flag, after_flag, Some(p))) => {
            let case_insensitive = match case_flag {
                Some(Some(true)) => true,
                _ => false,
            };
            let whole_words = match word_flag {
                Some(Some(true)) => true,
                _ => false,
            };
            let after = match after_flag {
                Some(Some(n)) => n,
                _ => 1,
            };
            Some(GrepOptions { case_insensitive, whole_words, after, positional: p })
        },
        _ => None,
    }
}

/// Reads the arguments of `grep` with the flag parser: `-i`, `-w` and
/// `-A <n>`, then the positional arguments.
pub fn grep_options(raw: &Vec<String>) -> (r: Option<GrepOptions>)
    ensures
        options_view(r) == grep_options_of(strings_view(raw@)),
{
    grep_options_from(read_flags(raw, "-i", "-w", "-A"))
}

/// What searching `text` for `pattern` gives: the diagnostic where the
/// pattern does not compile, else the lines that the matches select.
pub open spec fn search_output(pattern: Seq<char>, opts: GrepModel, text: Seq<char>) -> Seq<u8> {
    if !regex_compiles(pattern, opts.case_insensitive, true) {
        encode_utf8("grep: incorrect regexp! see https://docs.rs/regex/1.3.4/regex/#syntax"@)
    } else {
        grep_from(
            encode_utf8(text),
            regex_spans(pattern, opts.case_insensitive, true, text),
            0,
            0,
            opts.whole_words,
            opts.after as nat,
        )
    }
}

/// Searches `text` for `pattern`, in multi-line mode, and keeps the lines
/// that the options ask for.
pub fn grep_text(pattern: &String, opts: &GrepOptions, text: String) -> (r: Vec<u8>)
    ensures
        r@ == search_output(pattern@, opts@, text@),
{
    match find_matches(pattern.as_str(), opts.case_insensitive, true, text.as_str()) {
        Some(spans) => {
            grep_select(&text, &spans, opts.whole_words, opts.after)
        },
        None => utf8_bytes(String::from_str("grep: incorrect regexp! see https://docs.rs/regex/1.3.4/regex/#syntax")),
    }
}

/// What `grep` leaves, given its options (`None` where the arguments did not
/// parse), the buffer, and what reading the named file gave, where one is
/// named: one positional argument searches the buffer, two search the file.
pub open spec fn grep_output(opts: Option<GrepModel>, buf: Seq<u8>, read: Option<FileRead>) -> Seq<u8> {
    match opts {
        None => encode_utf8("grep: Incorrect arguments!"@),
        Some(o) => if o.positional.len() == 1 {
            if valid_utf8(buf) {
                search_output(o.positional[0], o, decode_utf8(buf))
            } else {
                encode_utf8("grep: stdin does not contain valid utf-8"@)
            }
        } else if o.positional.len() == 2 {
            match read {
                Some(FileRead::Contents(b)) => if valid_utf8(b@) {
                    search_output(o.positional[0], o, decode_utf8(b@))
                } else {
                    encode_utf8("grep: Can't read file\n"@)
                },
                Some(FileRead::Missing) => encode_utf8("grep: No such file: "@ + o.positional[1] + "\n"@),
                _ => encode_utf8("grep: Can't read file\n"@),
            }
        } else {
            encode_utf8("grep: incorrect arguments!"@)
        },
    }
}

fn grep_decoded(pattern: &String, opts: &GrepOptions, bytes: Vec<u8>, failure: &str) -> (r: Vec<u8>)
    ensures
        valid_utf8(bytes@) ==> r@ == search_output(pattern@, opts@, decode_utf8(bytes@)),
        !valid_utf8(bytes@) ==> r@ == encode_utf8(failure@),
{
    match decode_text(bytes) {
        Some(text) => grep_text(pattern, opts, text),
        None => utf8_bytes(String::from_str(failure)),
    }
}

/// Runs `grep` with the given options on the buffer, or on what reading the
/// named file gave.
pub fn grep_run(opts: &Option<GrepOptions>, buf: &Vec<u8>, read: Option<&FileRead>) -> (r: Vec<u8>)
    ensures
        r@ == grep_output(options_view(*opts), buf@, match read {
            Some(f) => Some(*f),
            None => None,
        }),
{
    match opts {
        None => utf8_bytes(String::from_str("grep: Incorrect arguments!")),
        Some(o) => {
            if o.positional.len() == 1 {
                grep_decoded(&o.positional[0], o, buf.clone(), "grep: stdin does not contain valid utf-8")
            } else if o.positional.len() == 2 {
                match read {
                    Some(FileRead::Contents(b)) => grep_decoded(&o.positional[0], o, b.clone(), "grep: Can't read file\n"),
                    Some(FileRead::Missing) => {
                        let mut s = String::from_str("grep: No such file: ");
                        s.append(o.positional[1].as_str());
                        s.append("\n");
                        utf8_bytes(s)
                    },
                    _ => utf8_bytes(String::from_str("grep: Can't read file\n")),
                }
            } else {
                utf8_bytes(String::from_str("grep: incorrect arguments!"))
            }
        },
    }
}

/// The file that `grep` searches: the second positional argument, where
/// there are two.
pub fn grep_file(opts: &Option<GrepOptions>) -> (r: Option<String>)
    ensures
        match options_view(*opts) {
            Some(o) => if o.positional.len() == 2 {
                r matches Some(n) && n@ == o.positional[1]
            } else {
                r is None
            },
            None => r is None,
        },
{
    match opts {
        Some(o) => if o.positional.len() == 2 {
            Some(o.positional[1].clone())
        } else {
            None
        },
        None => None,
    }
}

} // verus!
