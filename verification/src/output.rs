//! The console text of a tab: what is written to it and how it is kept short.

use vstd::prelude::*;
use vstd::string::*;
use vstd::utf8::*;

verus! {

/// Above this many bytes the console text is cut.
pub const OUTPUT_LIMIT: usize = 200000;

/// This many bytes are left of it.
pub const OUTPUT_KEEP: usize = 160000;

/// The length of `s` in bytes.
pub open spec fn byte_len(s: Seq<char>) -> nat {
    encode_utf8(s).len()
}

/// The line of fifty dashes that sets off what the program itself writes.
pub open spec fn rule() -> Seq<char> {
    Seq::new(50, |i: int| '─')
}

/// What a run starts with.
pub open spec fn header(name: Seq<char>, path: Seq<char>) -> Seq<char> {
    "> 运行: "@ + name + "\r\n"@ + "> 路径: "@ + path + "\r\n"@ + rule() + "\r\n"@
}

/// What a run that came to its end is closed with.
pub open spec fn footer() -> Seq<char> {
    rule() + "\r\n"@ + "> ✅ 执行完毕\r\n"@
}

/// What is written when the command cannot be started.
pub open spec fn error_line(error: Seq<char>) -> Seq<char> {
    "[ERROR] "@ + error + "\r\n"@
}

/// Whether `s` can be cut: a text over the limit has a character that starts where the part to
/// keep starts.
pub open spec fn trims_cleanly(s: Seq<char>) -> bool {
    byte_len(s) > OUTPUT_LIMIT ==> is_char_boundary(encode_utf8(s), byte_len(s) - OUTPUT_KEEP)
}

/// What is kept of `s`: all of it up to the limit, else its last `OUTPUT_KEEP` bytes.
pub open spec fn trimmed(s: Seq<char>) -> Seq<char> {
    if byte_len(s) > OUTPUT_LIMIT {
        decode_utf8(encode_utf8(s).skip(byte_len(s) - OUTPUT_KEEP))
    } else {
        s
    }
}

/// Cutting leaves an end of the text, of `OUTPUT_KEEP` bytes where anything was cut, and never
/// more than the limit.
pub proof fn trimmed_is_bounded_suffix(s: Seq<char>)
    requires
        trims_cleanly(s),
    ensures
        trimmed(s).is_suffix_of(s),
        byte_len(s) > OUTPUT_LIMIT ==> byte_len(trimmed(s)) == OUTPUT_KEEP,
        byte_len(s) <= OUTPUT_LIMIT ==> trimmed(s) == s,
        byte_len(trimmed(s)) <= OUTPUT_LIMIT,
{
    if byte_len(s) > OUTPUT_LIMIT {
        let bytes = encode_utf8(s);
        let cut = byte_len(s) - OUTPUT_KEEP;
        encode_utf8_valid_utf8(s);
        encode_utf8_decode_utf8(s);
        valid_utf8_split(bytes, cut);
        decode_utf8_split(bytes, cut);
        assert(bytes.skip(cut) =~= bytes.subrange(cut, bytes.len() as int));
        decode_utf8_encode_utf8(bytes.skip(cut));
        let front = decode_utf8(bytes.subrange(0, cut));
        assert(s =~= front + trimmed(s));
    }
}

/// Writes `rule`.
fn push_rule(out: &mut String)
    ensures
        final(out)@ == old(out)@ + rule(),
{
    let ghost before = out@;
    proof {
        reveal_strlit("─");
        assert("─"@ =~= seq!['─']);
        assert(before =~= before + rule().take(0));
    }
    let mut i: usize = 0;
    while i < 50
        invariant
            i <= 50,
            "─"@ == seq!['─'],
            out@ == before + rule().take(i as int),
        decreases 50 - i,
    {
        out.append("─");
        i = i + 1;
        proof {
            assert(rule().take(i as int) =~= rule().take(i - 1) + seq!['─']);
            assert(out@ =~= before + rule().take(i as int));
        }
    }
    proof {
        assert(rule().take(50) =~= rule());
    }
}

/// The bytes of two texts joined are their bytes joined.
pub(crate) proof fn lemma_encode_concat(a: Seq<char>, b: Seq<char>)
    ensures
        encode_utf8(a + b) == encode_utf8(a) + encode_utf8(b),
    decreases a.len(),
{
    if a.len() == 0 {
        assert(a + b =~= b);
        assert(encode_utf8(a) + encode_utf8(b) =~= encode_utf8(b));
    } else {
        lemma_encode_concat(a.drop_first(), b);
        assert((a + b).drop_first() =~= a.drop_first() + b);
        let head = encode_scalar(a[0] as u32);
        assert(head + (encode_utf8(a.drop_first()) + encode_utf8(b)) =~= (head + encode_utf8(
            a.drop_first(),
        )) + encode_utf8(b));
    }
}

/// A text that is not empty has bytes.
pub(crate) proof fn lemma_encode_not_empty(s: Seq<char>)
    requires
        s.len() > 0,
    ensures
        byte_len(s) > 0,
{
    assert(encode_scalar(s[0] as u32).len() > 0);
}

/// Heads the console text of a run: everything before is gone.
pub fn start_run(out: &mut String, name: &str, path: &str)
    ensures
        final(out)@ == header(name@, path@),
{
    *out = String::new();
    out.append("> 运行: ");
    out.append(name);
    out.append("\r\n");
    out.append("> 路径: ");
    out.append(path);
    out.append("\r\n");
    push_rule(out);
    out.append("\r\n");
    proof {
        assert(out@ =~= header(name@, path@));
    }
}

/// Closes the console text of a run that came to its end.
pub fn end_run(out: &mut String)
    ensures
        final(out)@ == old(out)@ + footer(),
{
    let ghost before = out@;
    push_rule(out);
    out.append("\r\n");
    out.append("> ✅ 执行完毕\r\n");
    proof {
        assert(out@ =~= before + footer());
    }
}

/// Writes why the command could not be started.
pub fn push_error(out: &mut String, error: &str)
    ensures
        final(out)@ == old(out)@ + error_line(error@),
{
    let ghost before = out@;
    out.append("[ERROR] ");
    out.append(error);
    out.append("\r\n");
    proof {
        assert(out@ =~= before + error_line(error@));
    }
}

/// Writes a line and its line end. Nothing is cut.
pub fn push_line(out: &mut String, line: &str)
    ensures
        final(out)@ == old(out)@ + line@ + "\r\n"@,
{
    out.append(line);
    out.append("\r\n");
}

/// Whether a further line can be taken by `push_trimmed_line`.
pub fn line_trims_cleanly(out: &str, line: &str) -> (clean: bool)
    ensures
        clean == trims_cleanly(out@ + line@ + "\r\n"@),
{
    let ghost whole = out@ + line@ + "\r\n"@;
    proof {
        lemma_encode_concat(out@ + line@, "\r\n"@);
        lemma_encode_concat(out@, line@);
        reveal_strlit("\r\n");
        is_ascii_chars_encode_utf8("\r\n"@);
    }
    let n: usize = out.as_bytes().len();
    let m: usize = line.as_bytes().len();
    if n <= OUTPUT_LIMIT && m <= OUTPUT_LIMIT && n + m + 2 <= OUTPUT_LIMIT {
        return true;
    }
    let mut text = out.to_owned();
    push_line(&mut text, line);
    let total: usize = text.as_str().as_bytes().len();
    text.as_str().is_char_boundary(total - OUTPUT_KEEP)
}

/// Writes a line and its line end, then cuts the text to its end if it is over the limit.
pub fn push_trimmed_line(out: &mut String, line: &str)
    requires
        trims_cleanly(old(out)@ + line@ + "\r\n"@),
    ensures
        final(out)@ == trimmed(old(out)@ + line@ + "\r\n"@),
        final(out)@.is_suffix_of(old(out)@ + line@ + "\r\n"@),
        byte_len(final(out)@) <= OUTPUT_LIMIT,
{
    proof {
        trimmed_is_bounded_suffix(out@ + line@ + "\r\n"@);
    }
    push_line(out, line);
    let total: usize = out.as_str().as_bytes().len();
    if total > OUTPUT_LIMIT {
        let tail = out.as_str().split_at(total - OUTPUT_KEEP).1.to_owned();
        proof {
            let bytes = encode_utf8(out@);
            assert(bytes.skip(total - OUTPUT_KEEP) =~= bytes.subrange(
                total - OUTPUT_KEEP,
                bytes.len() as int,
            ));
            encode_utf8_decode_utf8(tail@);
        }
        *out = tail;
    }
}

} // verus!
