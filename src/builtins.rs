use vstd::prelude::*;
use vstd::string::{StringExecFns, StrSliceExecFns};
use vstd::utf8::{encode_utf8, valid_utf8, decode_utf8};
use crate::command::strings_view;
use crate::environment::bindings_map;

verus! {

/// The UTF-8 bytes of a text.
pub fn utf8_bytes(s: String) -> (r: Vec<u8>)
    ensures
        r@ == encode_utf8(s@),
{
    s.as_str().as_bytes_vec()
}

/// Relies on `String::from_utf8`: it succeeds exactly on valid UTF-8, and
/// gives the text those bytes encode.
#[verifier::external_body]
pub(crate) fn decode_text(b: Vec<u8>) -> (r: Option<String>)
    ensures
        r is Some <==> valid_utf8(b@),
        r is Some ==> r->Some_0@ == decode_utf8(b@),
{
    String::from_utf8(b).ok()
}

/// What reading one file gave.
#[derive(Debug, Clone, PartialEq)]
pub enum FileRead {
    /// The file's contents.
    Contents(Vec<u8>),
    /// The file could not be opened.
    Missing,
    /// The file was opened but could not be read.
    Unreadable,
}

/// The words joined by single spaces.
pub open spec fn join_words(ws: Seq<Seq<char>>) -> Seq<char>
    decreases ws.len(),
{
    if ws.len() == 0 {
        seq![]
    } else if ws.len() == 1 {
        ws[0]
    } else {
        join_words(ws.drop_last()) + seq![' '] + ws.last()
    }
}

/// The words joined by single spaces, with no space or newline at the end.
pub fn join_with_spaces(words: &Vec<String>) -> (r: String)
    ensures
        r@ == join_words(strings_view(words@)),
{
    let mut s = String::new();
    let mut i: usize = 0;
    proof {
        reveal_strlit(" ");
    }
    while i < words.len()
        invariant
            i <= words@.len(),
            s@ == join_words(strings_view(words@).take(i as int)),
            " "@ == seq![' '],
        decreases words@.len() - i,
    {
        assert(strings_view(words@).take(i + 1).drop_last() =~= strings_view(words@).take(i as int));
        if i > 0 {
            s.append(" ");
        } else {
            assert(s@ + words@[0]@ =~= words@[0]@);
        }
        s.append(words[i].as_str());
        i = i + 1;
    }
    assert(strings_view(words@).take(words@.len() as int) =~= strings_view(words@));
    s
}

/// What `echo` leaves in the buffer: the words joined by single spaces.
pub fn echo_output(words: &Vec<String>) -> (r: Vec<u8>)
    ensures
        r@ == encode_utf8(join_words(strings_view(words@))),
{
    utf8_bytes(join_with_spaces(words))
}

/// Line, word and byte counts.
#[derive(Debug, Clone, Copy, PartialEq, Eq)]
pub struct WcStats {
    pub lines: u128,
    pub words: u128,
    pub bytes: u64,
}

/// The number of newline bytes among the first `n`.
pub open spec fn newlines(b: Seq<u8>, n: int) -> nat
    decreases n,
{
    if n <= 0 {
        0
    } else {
        newlines(b, n - 1) + if b[n - 1] == 10 { 1nat } else { 0nat }
    }
}

/// Whether a space right after the first `n` bytes counts as ending a word:
/// so at the start, and after any byte but a space that was counted.
pub open spec fn in_word(b: Seq<u8>, n: int) -> bool
    decreases n,
{
    if n <= 0 {
        true
    } else {
        !(b[n - 1] == 32 && in_word(b, n - 1))
    }
}

/// Among the first `n` bytes, the spaces counted as ending a word: each
/// space at which `in_word` holds.
pub open spec fn word_breaks(b: Seq<u8>, n: int) -> nat
    decreases n,
{
    if n <= 0 {
        0
    } else {
        word_breaks(b, n - 1) + if b[n - 1] == 32 && in_word(b, n - 1) { 1nat } else { 0nat }
    }
}

/// The counts of `wc`: one line more than there are newlines; a word for
/// non-empty input and one more for each counted space; the length.
pub open spec fn wc_stats(b: Seq<u8>) -> (nat, nat, nat) {
    (
        newlines(b, b.len() as int) + 1,
        (if b.len() > 0 { 1nat } else { 0nat }) + word_breaks(b, b.len() as int),
        b.len(),
    )
}

proof fn lemma_counts_bounded(b: Seq<u8>, n: int)
    requires
        0 <= n <= b.len(),
    ensures
        newlines(b, n) <= n,
        word_breaks(b, n) <= n,
    decreases n,
{
    if n > 0 {
        lemma_counts_bounded(b, n - 1);
    }
}

/// Counts lines, words and bytes.
pub fn get_stats(contents: &Vec<u8>) -> (r: WcStats)
    ensures
        r.lines == wc_stats(contents@).0,
        r.words == wc_stats(contents@).1,
        r.bytes == wc_stats(contents@).2,
{
    let mut lines: u64 = 0;
    let mut words: u128 = if contents.len() > 0 { 1 } else { 0 };
    let mut word = true;
    let mut i: usize = 0;
    while i < contents.len()
        invariant
            i <= contents@.len(),
            lines == newlines(contents@, i as int),
            words == (if contents@.len() > 0 { 1nat } else { 0nat }) + word_breaks(contents@, i as int),
            word == in_word(contents@, i as int),
            newlines(contents@, i as int) <= i,
            word_breaks(contents@, i as int) <= i,
        decreases contents@.len() - i,
    {
        let byte = contents[i];
        if byte == 10 {
            lines = lines + 1;
        }
        if byte == 32 && word {
            words = words + 1;
            word = false;
        } else {
            word = true;
        }
        i = i + 1;
        proof {
            lemma_counts_bounded(contents@, i as int);
        }
    }
    WcStats { lines: lines as u128 + 1, words, bytes: contents.len() as u64 }
}

/// The decimal digits of `n`, in ASCII.
pub open spec fn decimal(n: nat) -> Seq<u8>
    decreases n,
{
    if n < 10 {
        seq![(48 + n) as u8]
    } else {
        decimal(n / 10).push((48 + n % 10) as u8)
    }
}

/// The decimal digits of `n`, in ASCII.
pub fn decimal_bytes(n: u128) -> (r: Vec<u8>)
    ensures
        r@ == decimal(n as nat),
    decreases n,
{
    if n < 10 {
        vec![(48 + n) as u8]
    } else {
        let mut v = decimal_bytes(n / 10);
        v.push((48 + n % 10) as u8);
        v
    }
}

/// One line of `wc`: the three counts, then the file's name where one is
/// given, each after a tab; then a newline.
pub open spec fn wc_line(stats: (nat, nat, nat), name: Option<Seq<char>>) -> Seq<u8> {
    seq![9u8] + decimal(stats.0) + seq![9u8] + decimal(stats.1) + seq![9u8] + decimal(stats.2) + match name {
        Some(n) => seq![9u8] + encode_utf8(n),
        None => seq![],
    } + seq![10u8]
}

/// Formats the counts as one line of `wc`, with the name where one is given.
pub fn pprint_stats(stats: WcStats, name: Option<String>) -> (r: Vec<u8>)
    ensures
        r@ == wc_line((stats.lines as nat, stats.words as nat, stats.bytes as nat), match name {
            Some(n) => Some(n@),
            None => None,
        }),
{
    let mut out: Vec<u8> = vec![9u8];
    let mut d = decimal_bytes(stats.lines);
    out.append(&mut d);
    out.push(9u8);
    let mut d = decimal_bytes(stats.words);
    out.append(&mut d);
    out.push(9u8);
    let mut d = decimal_bytes(stats.bytes as u128);
    out.append(&mut d);
    match name {
        Some(n) => {
            out.push(9u8);
            let mut b = utf8_bytes(n);
            out.append(&mut b);
        },
        None => {},
    }
    out.push(10u8);
    proof {
        assert(out@ =~= wc_line((stats.lines as nat, stats.words as nat, stats.bytes as nat), match name {
            Some(n) => Some(n@),
            None => None,
        }));
    }
    out
}

/// What `wc` without files leaves in the buffer: the counts of the buffer.
pub fn wc_buffer(contents: &Vec<u8>) -> (r: Vec<u8>)
    ensures
        r@ == wc_line(wc_stats(contents@), None),
{
    pprint_stats(get_stats(contents), None)
}

/// What reading file `i` gave: a read that is not there counts as one that
/// failed.
pub open spec fn read_at(reads: Seq<FileRead>, i: int) -> FileRead {
    if 0 <= i < reads.len() {
        reads[i]
    } else {
        FileRead::Unreadable
    }
}

/// What `cat` writes for one file.
pub open spec fn cat_piece(name: Seq<char>, read: FileRead) -> Seq<u8> {
    match read {
        FileRead::Contents(b) => b@,
        FileRead::Missing => encode_utf8("No such file: "@ + name + "\n"@),
        FileRead::Unreadable => encode_utf8("Can't read file\n"@),
    }
}

/// What `cat` writes for the first `n` files, in order.
pub open spec fn cat_output(names: Seq<Seq<char>>, reads: Seq<FileRead>, n: int) -> Seq<u8>
    decreases n,
{
    if n <= 0 {
        seq![]
    } else {
        cat_output(names, reads, n - 1) + cat_piece(names[n - 1], read_at(reads, n - 1))
    }
}

/// What `wc` writes for one of its files; the name is shown where there are
/// several.
pub open spec fn wc_piece(name: Seq<char>, read: FileRead, several: bool) -> Seq<u8> {
    match read {
        FileRead::Contents(b) => wc_line(wc_stats(b@), if several { Some(name) } else { None }),
        FileRead::Missing => encode_utf8("wc: No such file: "@ + name + "\n"@),
        FileRead::Unreadable => encode_utf8("Can't read file"@),
    }
}

/// What `wc` writes for the first `n` files, in order.
pub open spec fn wc_files_output(names: Seq<Seq<char>>, reads: Seq<FileRead>, n: int) -> Seq<u8>
    decreases n,
{
    if n <= 0 {
        seq![]
    } else {
        wc_files_output(names, reads, n - 1) + wc_piece(names[n - 1], read_at(reads, n - 1), names.len() > 1)
    }
}

fn read_of(reads: &Vec<FileRead>, i: usize) -> (r: Option<&FileRead>)
    ensures
        i < reads@.len() ==> r == Some(&reads@[i as int]),
        i >= reads@.len() ==> r is None,
{
    if i < reads.len() {
        Some(&reads[i])
    } else {
        None
    }
}

fn message_with_name(prefix: &str, name: &String) -> (r: Vec<u8>)
    ensures
        r@ == encode_utf8(prefix@ + name@ + "\n"@),
{
    let mut s = String::from_str(prefix);
    s.append(name.as_str());
    s.append("\n");
    utf8_bytes(s)
}

/// What `cat` leaves in the buffer: each file's contents, or a line that says
/// why it could not be had, in order.
pub fn cat_files(names: &Vec<String>, reads: &Vec<FileRead>) -> (r: Vec<u8>)
    ensures
        r@ == cat_output(strings_view(names@), reads@, names@.len() as int),
{
    let mut out: Vec<u8> = Vec::new();
    let mut i: usize = 0;
    while i < names.len()
        invariant
            i <= names@.len(),
            out@ == cat_output(strings_view(names@), reads@, i as int),
        decreases names@.len() - i,
    {
        let mut piece = match read_of(reads, i) {
            Some(FileRead::Contents(b)) => b.clone(),
            Some(FileRead::Missing) => message_with_name("No such file: ", &names[i]),
            _ => utf8_bytes(String::from_str("Can't read file\n")),
        };
        out.append(&mut piece);
        i = i + 1;
    }
    out
}

/// What `wc` with files leaves in the buffer: a line for each file, in
/// order.
pub fn wc_files(names: &Vec<String>, reads: &Vec<FileRead>) -> (r: Vec<u8>)
    ensures
        r@ == wc_files_output(strings_view(names@), reads@, names@.len() as int),
{
    let mut out: Vec<u8> = Vec::new();
    let several = names.len() > 1;
    let mut i: usize = 0;
    while i < names.len()
        invariant
            i <= names@.len(),
            several == (names@.len() > 1),
            out@ == wc_files_output(strings_view(names@), reads@, i as int),
        decreases names@.len() - i,
    {
        let mut piece = match read_of(reads, i) {
            Some(FileRead::Contents(b)) => {
                let stats = get_stats(b);
                pprint_stats(stats, if several { Some(names[i].clone()) } else { None })
            },
            Some(FileRead::Missing) => message_with_name("wc: No such file: ", &names[i]),
            _ => utf8_bytes(String::from_str("Can't read file")),
        };
        out.append(&mut piece);
        i = i + 1;
    }
    out
}

/// The environment of a child process: the inherited bindings, overridden by
/// the shell's own.
pub fn child_environment(inherited: &Vec<(String, String)>, shell: &Vec<(String, String)>) -> (r: Vec<(String, String)>)
    ensures
        bindings_map(r@) == bindings_map(inherited@).union_prefer_right(bindings_map(shell@)),
{
    let mut r: Vec<(String, String)> = Vec::new();
    let mut i: usize = 0;
    assert(bindings_map(r@) =~= Map::<Seq<char>, Seq<char>>::empty());
    while i < inherited.len()
        invariant
            i <= inherited@.len(),
            r@ == inherited@.take(i as int),
        decreases inherited@.len() - i,
    {
        r.push((inherited[i].0.clone(), inherited[i].1.clone()));
        assert(r@ =~= inherited@.take(i + 1));
        i = i + 1;
    }
    assert(inherited@.take(inherited@.len() as int) =~= inherited@);
    let mut j: usize = 0;
    assert(shell@.take(0) =~= Seq::<(String, String)>::empty());
    assert(bindings_map(inherited@).union_prefer_right(bindings_map(shell@.take(0))) =~= bindings_map(inherited@));
    while j < shell.len()
        invariant
            j <= shell@.len(),
            bindings_map(r@) == bindings_map(inherited@).union_prefer_right(bindings_map(shell@.take(j as int))),
        decreases shell@.len() - j,
    {
        let ghost before = r@;
        r.push((shell[j].0.clone(), shell[j].1.clone()));
        assert(r@.drop_last() =~= before);
        assert(shell@.take(j + 1).drop_last() =~= shell@.take(j as int));
        assert(bindings_map(r@) =~= bindings_map(inherited@).union_prefer_right(bindings_map(shell@.take(j + 1))));
        j = j + 1;
    }
    assert(shell@.take(shell@.len() as int) =~= shell@);
    r
}

/// The lines an external program wrote, each followed by a newline.
pub open spec fn lines_output(lines: Seq<Seq<char>>, n: int) -> Seq<u8>
    decreases n,
{
    if n <= 0 {
        seq![]
    } else {
        lines_output(lines, n - 1) + encode_utf8(lines[n - 1] + "\n"@)
    }
}

/// The buffer after an external program: the lines it wrote, each followed
/// by a newline.
pub fn external_output(lines: &Vec<String>) -> (r: Vec<u8>)
    ensures
        r@ == lines_output(strings_view(lines@), lines@.len() as int),
{
    let mut out: Vec<u8> = Vec::new();
    let mut i: usize = 0;
    while i < lines.len()
        invariant
            i <= lines@.len(),
            out@ == lines_output(strings_view(lines@), i as int),
        decreases lines@.len() - i,
    {
        let mut s = lines[i].clone();
        s.append("\n");
        let mut b = utf8_bytes(s);
        out.append(&mut b);
        i = i + 1;
    }
    out
}

} // verus!
