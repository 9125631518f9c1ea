//! The core algorithm: per-source truncated copying, by line count or by
//! byte count, multi-source header formatting, and per-source failure
//! diagnostics.

use vstd::prelude::*;
use crate::config::Config;

verus! {

/// The newline byte that terminates a line.
pub const NEWLINE: u8 = 10;

/// Length of the shortest prefix of `s` that covers `n` lines: bytes are
/// taken up to and including the `n`-th newline, or to the end of `s` when
/// fewer newlines remain.
pub open spec fn line_cutoff(s: Seq<u8>, n: nat) -> nat
    decreases s.len(),
{
    if n == 0 || s.len() == 0 {
        0
    } else if s[0] == NEWLINE {
        1 + line_cutoff(s.skip(1), (n - 1) as nat)
    } else {
        1 + line_cutoff(s.skip(1), n)
    }
}

/// The first `n` lines of `s`, each with its trailing newline when the
/// underlying data has one.
pub open spec fn take_lines_spec(s: Seq<u8>, n: nat) -> Seq<u8> {
    s.take(line_cutoff(s, n) as int)
}

/// The first `n` bytes of `s`, or all of `s` when it is shorter.
pub open spec fn take_bytes_spec(s: Seq<u8>, n: nat) -> Seq<u8> {
    if n <= s.len() {
        s.take(n as int)
    } else {
        s
    }
}

/// Number of newline bytes in `s`.
pub open spec fn newline_count(s: Seq<u8>) -> nat
    decreases s.len(),
{
    if s.len() == 0 {
        0
    } else {
        (if s[0] == NEWLINE {
            1nat
        } else {
            0nat
        }) + newline_count(s.skip(1))
    }
}

/// Number of lines in `s`: one per newline byte, plus one for a final
/// unterminated line.
pub open spec fn line_count(s: Seq<u8>) -> nat {
    newline_count(s) + (if s.len() > 0 && s.last() != NEWLINE {
        1nat
    } else {
        0nat
    })
}

proof fn lemma_newline_count_of_terminated(s: Seq<u8>)
    requires
        s.len() > 0,
        s.last() == NEWLINE,
    ensures
        newline_count(s) >= 1,
    decreases s.len(),
{
    if s.len() > 1 {
        assert(s.skip(1).last() == s.last());
        lemma_newline_count_of_terminated(s.skip(1));
    }
}

proof fn lemma_line_cutoff_whole(s: Seq<u8>, n: nat)
    requires
        line_count(s) <= n,
    ensures
        line_cutoff(s, n) == s.len(),
    decreases s.len(),
{
    if s.len() > 0 {
        if s.last() == NEWLINE {
            lemma_newline_count_of_terminated(s);
        }
        assert(line_count(s) >= 1);
        if s.len() == 1 {
            assert(s.skip(1) =~= Seq::<u8>::empty());
            assert(line_cutoff(s.skip(1), (n - 1) as nat) == 0);
            assert(line_cutoff(s.skip(1), n) == 0);
            assert(line_cutoff(s, n) == 1);
        } else {
            assert(s.skip(1).last() == s.last());
            assert(s.skip(1).len() == s.len() - 1);
            assert(newline_count(s) == (if s[0] == NEWLINE {
                1nat
            } else {
                0nat
            }) + newline_count(s.skip(1)));
            assert(line_count(s) == (if s[0] == NEWLINE {
                1nat
            } else {
                0nat
            }) + line_count(s.skip(1)));
            if s[0] == NEWLINE {
                lemma_line_cutoff_whole(s.skip(1), (n - 1) as nat);
                assert(line_cutoff(s, n) == 1 + line_cutoff(s.skip(1), (n - 1) as nat));
            } else {
                lemma_line_cutoff_whole(s.skip(1), n);
                assert(line_cutoff(s, n) == 1 + line_cutoff(s.skip(1), n));
            }
        }
    }
}

/// A source with no more lines than the requested line count is emitted in
/// full: truncating `s` to `n` lines yields `s` itself whenever `s` holds at
/// most `n` lines.
pub proof fn lemma_take_lines_whole(s: Seq<u8>, n: nat)
    requires
        line_count(s) <= n,
    ensures
        take_lines_spec(s, n) == s,
{
    lemma_line_cutoff_whole(s, n);
    assert(s.take(s.len() as int) =~= s);
}

/// A source with no more bytes than the requested byte count is emitted in
/// full: truncating `s` to `n` bytes yields `s` itself whenever `s` holds at
/// most `n` bytes.
pub proof fn lemma_take_bytes_whole(s: Seq<u8>, n: nat)
    requires
        s.len() <= n,
    ensures
        take_bytes_spec(s, n) == s,
{
    if n <= s.len() {
        assert(s.take(n as int) =~= s);
    }
}

/// Copies the first `n` lines of `content`, each line keeping its trailing
/// newline when the data has one; all of `content` when it holds fewer than
/// `n` lines.
pub fn take_lines(content: &[u8], n: usize) -> (r: Vec<u8>)
    ensures
        r@ == take_lines_spec(content@, n as nat),
{
    let mut out: Vec<u8> = Vec::new();
    let mut i: usize = 0;
    let mut lines_done: usize = 0;
    proof {
        assert(content@.skip(0) =~= content@);
        assert(out@ =~= content@.take(0));
    }
    while i < content.len() && lines_done < n
        invariant
            i <= content@.len(),
            lines_done <= n,
            out@ == content@.take(i as int),
            line_cutoff(content@, n as nat) == i + line_cutoff(
                content@.skip(i as int),
                (n - lines_done) as nat,
            ),
        decreases content@.len() - i,
    {
        let b = content[i];
        proof {
            assert(content@.skip(i as int)[0] == content@[i as int]);
            assert(content@.skip(i as int).skip(1) =~= content@.skip(i as int + 1));
            assert(content@.skip(i as int).len() == content@.len() - i);
        }
        out.push(b);
        if b == NEWLINE {
            lines_done = lines_done + 1;
        }
        i = i + 1;
        proof {
            assert(out@ =~= content@.take(i as int));
        }
    }
    proof {
        if i < content@.len() {
            assert(lines_done == n);
        } else {
            assert(content@.skip(i as int) =~= Seq::<u8>::empty());
        }
        assert(line_cutoff(content@, n as nat) == i);
        assert(out@ == take_lines_spec(content@, n as nat));
    }
    out
}

/// Copies the first `n` bytes of `content`; all of `content` when it is
/// shorter.
pub fn take_bytes(content: &[u8], n: usize) -> (r: Vec<u8>)
    ensures
        r@ == take_bytes_spec(content@, n as nat),
{
    let mut out: Vec<u8> = Vec::new();
    let mut i: usize = 0;
    while i < content.len() && i < n
        invariant
            i <= content@.len(),
            i <= n,
            out@ == content@.take(i as int),
        decreases content@.len() - i,
    {
        let b = content[i];
        out.push(b);
        i = i + 1;
        proof {
            assert(out@ =~= content@.take(i as int));
        }
    }
    proof {
        if i >= content@.len() {
            assert(content@.take(i as int) =~= content@);
        }
    }
    out
}

/// What the lossy UTF-8 decoding of a byte string reads as.
pub uninterp spec fn lossy_decode(bytes: Seq<u8>) -> Seq<char>;

/// Relies on `String::from_utf8_lossy` (`Cow::into_owned` takes ownership of
/// the result): the decoding is a function of the bytes alone; an empty
/// input decodes to the empty string; and bytes that are all ASCII decode to
/// the characters with the same code points, since ASCII data is valid
/// UTF-8 and valid UTF-8 passes through the decoding unchanged.
#[verifier::external_body]
fn utf8_lossy(bytes: &[u8]) -> (r: String)
    ensures
        r@ == lossy_decode(bytes@),
        bytes@.len() == 0 ==> r@.len() == 0,
        (forall|i: int| 0 <= i < bytes@.len() ==> bytes@[i] < 128) ==> (r@.len() == bytes@.len()
            && (forall|i: int| 0 <= i < bytes@.len() ==> r@[i] as u32 == bytes@[i] as u32)),
{
    String::from_utf8_lossy(bytes).into_owned()
}

/// The header emitted before a source's content when more than one source is
/// configured: `==> <name> <==`, preceded by a blank line for every source
/// but the first.
pub open spec fn header_spec(name: Seq<char>, index: int) -> Seq<char> {
    (if index > 0 {
        "\n"@
    } else {
        Seq::<char>::empty()
    }) + "==> "@ + name + " <=="@ + "\n"@
}

/// Renders the header for the source named `name` at position `index`.
pub fn header_line(name: &str, index: usize) -> (r: String)
    ensures
        r@ == header_spec(name@, index as int),
{
    let mut s: String = if index > 0 {
        String::from_str("\n")
    } else {
        String::new()
    };
    s.append("==> ");
    s.append(name);
    s.append(" <==");
    s.append("\n");
    s
}

/// The diagnostic line reported for a source that failed: `<name>: <cause>`.
pub open spec fn diagnostic_spec(name: Seq<char>, cause: Seq<char>) -> Seq<char> {
    name + ": "@ + cause + "\n"@
}

/// Renders the diagnostic line for the failed source named `name`.
pub fn diagnostic_line(name: &str, cause: &str) -> (r: String)
    ensures
        r@ == diagnostic_spec(name@, cause@),
{
    let mut s = String::from_str(name);
    s.append(": ");
    s.append(cause);
    s.append("\n");
    s
}

/// The truncated content emitted for one source: its first bytes in byte
/// mode, its first lines otherwise, lossily decoded as UTF-8 text.
pub open spec fn body_spec(cfg: Config, content: Seq<u8>) -> Seq<char> {
    match cfg.bytes {
        Some(n) => lossy_decode(take_bytes_spec(content, n as nat)),
        None => lossy_decode(take_lines_spec(content, cfg.lines as nat)),
    }
}

/// What one source contributes to standard output: nothing when it failed;
/// otherwise its truncated content, preceded by its header when more than
/// one source is configured.
pub open spec fn source_stdout_spec(cfg: Config, index: int, data: Result<Vec<u8>, String>) -> Seq<
    char,
> {
    match data {
        Ok(content) => (if cfg.files@.len() > 1 {
            header_spec(cfg.files@[index]@, index)
        } else {
            Seq::<char>::empty()
        }) + body_spec(cfg, content@),
        Err(_) => Seq::<char>::empty(),
    }
}

/// What one source contributes to the error channel: a diagnostic line when
/// it failed, nothing otherwise.
pub open spec fn source_stderr_spec(cfg: Config, index: int, data: Result<Vec<u8>, String>) -> Seq<
    char,
> {
    match data {
        Ok(_) => Seq::<char>::empty(),
        Err(cause) => diagnostic_spec(cfg.files@[index]@, cause@),
    }
}

/// Processes one source: `data` holds either the bytes read from the source
/// at `index`, or the cause of its failure. Returns what the source
/// contributes to standard output and to the error channel.
pub fn process_source(cfg: &Config, index: usize, data: &Result<Vec<u8>, String>) -> (r: (
    String,
    String,
))
    requires
        index < cfg.files@.len(),
    ensures
        r.0@ == source_stdout_spec(*cfg, index as int, *data),
        r.1@ == source_stderr_spec(*cfg, index as int, *data),
{
    match data {
        Ok(content) => {
            let mut out: String = if cfg.files.len() > 1 {
                header_line(cfg.files[index].as_str(), index)
            } else {
                String::new()
            };
            let piece: Vec<u8> = match cfg.bytes {
                Some(n) => take_bytes(content.as_slice(), n),
                None => take_lines(content.as_slice(), cfg.lines),
            };
            let text = utf8_lossy(piece.as_slice());
            out.append(text.as_str());
            (out, String::new())
        },
        Err(cause) => (String::new(), diagnostic_line(cfg.files[index].as_str(), cause.as_str())),
    }
}

/// Standard output of a whole run over the first `k` sources, in list order.
pub open spec fn run_stdout_spec(cfg: Config, results: Seq<Result<Vec<u8>, String>>, k: int) -> Seq<
    char,
>
    decreases k,
{
    if k <= 0 {
        Seq::<char>::empty()
    } else {
        run_stdout_spec(cfg, results, k - 1) + source_stdout_spec(cfg, k - 1, results[k - 1])
    }
}

/// Error-channel output of a whole run over the first `k` sources.
pub open spec fn run_stderr_spec(cfg: Config, results: Seq<Result<Vec<u8>, String>>, k: int) -> Seq<
    char,
>
    decreases k,
{
    if k <= 0 {
        Seq::<char>::empty()
    } else {
        run_stderr_spec(cfg, results, k - 1) + source_stderr_spec(cfg, k - 1, results[k - 1])
    }
}

/// Processes every configured source in list order: `results` holds, per
/// source, either the bytes read from it or the cause of its failure. A
/// failed source contributes a diagnostic and does not halt the run.
pub fn process_sources(cfg: &Config, results: &Vec<Result<Vec<u8>, String>>) -> (r: (
    String,
    String,
))
    requires
        results@.len() == cfg.files@.len(),
    ensures
        r.0@ == run_stdout_spec(*cfg, results@, results@.len() as int),
        r.1@ == run_stderr_spec(*cfg, results@, results@.len() as int),
{
    let mut out = String::new();
    let mut err = String::new();
    let mut i: usize = 0;
    while i < results.len()
        invariant
            i <= results@.len(),
            results@.len() == cfg.files@.len(),
            out@ == run_stdout_spec(*cfg, results@, i as int),
            err@ == run_stderr_spec(*cfg, results@, i as int),
        decreases results@.len() - i,
    {
        let piece = process_source(cfg, i, &results[i]);
        out.append(piece.0.as_str());
        err.append(piece.1.as_str());
        i = i + 1;
    }
    (out, err)
}

/// A source shorter than the requested count is emitted in full, in either
/// mode: when the byte count (if active) is at least the source's length, or
/// the line count (otherwise) is at least the source's line count, the
/// source's contribution is its entire content.
pub proof fn lemma_short_source_full_output(cfg: Config, content: Seq<u8>)
    requires
        cfg.bytes matches Some(n) ==> content.len() <= n,
        cfg.bytes is None ==> line_count(content) <= cfg.lines,
    ensures
        body_spec(cfg, content) == lossy_decode(content),
{
    match cfg.bytes {
        Some(n) => lemma_take_bytes_whole(content, n as nat),
        None => lemma_take_lines_whole(content, cfg.lines as nat),
    }
}

} // verus!
