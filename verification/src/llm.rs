//! What the library decides around calls to a chat-completions service: the
//! endpoint, the key check, and the decoding of a streamed reply (server-sent
//! events) into tokens.
use vstd::prelude::*;
use crate::error::{error_spec, AppError, ErrorSpec};
use crate::text::{
    lemma_split_char_concat, lemma_split_char_nonempty, skip_chars, split_by_char, split_char, starts_with, str_eq,
    str_starts_with, to_owned, trim, trim_str, views,
};

verus! {

pub const CHAT_COMPLETIONS_PATH: &'static str = "/chat/completions";

pub const LLM_CONFIG: &'static str = "llmConfig";

pub const MISSING_KEY_MESSAGE: &'static str = "LLM API key is not configured";

pub const BEARER: &'static str = "Bearer ";

pub const DATA_PREFIX: &'static str = "data: ";

pub const DONE_MARK: &'static str = "[DONE]";

// ─── The endpoint and the key ─────────────────────────────────────────────

/// `s` without trailing slashes (`trim_end_matches('/')`).
pub open spec fn strip_trailing_slashes(s: Seq<char>) -> Seq<char>
    decreases s.len(),
{
    if s.len() > 0 && s.last() == '/' {
        strip_trailing_slashes(s.drop_last())
    } else {
        s
    }
}

pub open spec fn completions_url(base_url: Seq<char>) -> Seq<char> {
    strip_trailing_slashes(base_url) + CHAT_COMPLETIONS_PATH@
}

/// The chat-completions endpoint under `base_url`.
pub fn chat_completions_url(base_url: &str) -> (r: String)
    ensures
        r@ == completions_url(base_url@),
{
    let mut j = base_url.unicode_len();
    assert(base_url@.take(j as int) =~= base_url@);
    while j > 0 && base_url.get_char(j - 1) == '/'
        invariant
            j <= base_url@.len(),
            strip_trailing_slashes(base_url@) == strip_trailing_slashes(base_url@.take(j as int)),
        decreases j,
    {
        proof {
            assert(base_url@.take(j as int).drop_last() =~= base_url@.take(j - 1));
        }
        j = j - 1;
    }
    proof {
        if j > 0 {
            assert(base_url@.take(j as int).last() == base_url@[j - 1]);
        }
    }
    let mut r = to_owned(base_url.substring_char(0, j));
    r.append(CHAT_COMPLETIONS_PATH);
    r
}

pub open spec fn missing_key_error() -> ErrorSpec {
    error_spec(LLM_CONFIG@, MISSING_KEY_MESSAGE@)
}

/// An error when no API key is configured.
pub fn require_api_key(api_key: &str) -> (r: Result<(), AppError>)
    ensures
        api_key@.len() == 0 <==> r is Err,
        r matches Err(e) ==> e@ == missing_key_error(),
{
    if api_key.unicode_len() == 0 {
        Err(AppError::new(LLM_CONFIG, to_owned(MISSING_KEY_MESSAGE)))
    } else {
        Ok(())
    }
}

/// The authorization header value for `api_key`.
pub fn bearer_header(api_key: &str) -> (r: String)
    ensures
        r@ == BEARER@ + api_key@,
{
    let mut r = to_owned(BEARER);
    r.append(api_key);
    r
}

// ─── Calls into serde_json and std ────────────────────────────────────────

/// What `choices[0].delta.content` holds, as a string, in the JSON text
/// `data`; none when `data` is no JSON or holds no such string.
pub uninterp spec fn spec_delta_content(data: Seq<char>) -> Option<Seq<char>>;

/// Parses `data` with `serde_json::from_str::<serde_json::Value>` and reads
/// `["choices"][0]["delta"]["content"]` with `Value::as_str`. Claimed: the
/// result is the named function of `data` (indexing a `Value` never fails: a
/// missing key or index reads as `Null`, and `as_str` of anything but a
/// string is `None`).
#[verifier::external_body]
fn delta_content(data: &str) -> (r: Option<String>)
    ensures
        match r {
            Some(s) => spec_delta_content(data@) == Some(s@),
            None => spec_delta_content(data@) is None,
        },
{
    let value: serde_json::Value = match serde_json::from_str(data) {
        Ok(v) => v,
        Err(_) => return None,
    };
    value["choices"][0]["delta"]["content"].as_str().map(|s| s.to_string())
}

/// The text that `String::from_utf8_lossy` makes of `bytes`.
pub uninterp spec fn spec_utf8_lossy(bytes: Seq<u8>) -> Seq<char>;

/// Calls `String::from_utf8_lossy`. Claimed: the result is the named function
/// of the bytes, and for valid UTF-8 it is the text the bytes encode (as the
/// documentation says; invalid sequences become U+FFFD, which is not stated).
#[verifier::external_body]
pub fn utf8_lossy(bytes: &[u8]) -> (r: String)
    ensures
        r@ == spec_utf8_lossy(bytes@),
        vstd::utf8::valid_utf8(bytes@) ==> r@ == vstd::utf8::decode_utf8(bytes@),
{
    String::from_utf8_lossy(bytes).into_owned()
}

// ─── Decoding a streamed reply ────────────────────────────────────────────

/// The tokens of complete event lines, in order, and whether the end mark was
/// met: a line (trimmed) that starts with `data: ` carries either the end
/// mark `[DONE]`, after which nothing is read, or a JSON chunk whose non-empty
/// delta content is a token. Other lines, and chunks without content, give
/// nothing.
pub open spec fn sse_scan(lines: Seq<Seq<char>>) -> (Seq<Seq<char>>, bool)
    decreases lines.len(),
{
    if lines.len() == 0 {
        (Seq::empty(), false)
    } else {
        let l = trim(lines[0]);
        let rest = sse_scan(lines.drop_first());
        if !starts_with(l, DATA_PREFIX@) {
            rest
        } else {
            let d = l.skip(6);
            if d == DONE_MARK@ {
                (Seq::empty(), true)
            } else {
                match spec_delta_content(d) {
                    Some(c) => if c.len() > 0 {
                        (seq![c] + rest.0, rest.1)
                    } else {
                        rest
                    },
                    None => rest,
                }
            }
        }
    }
}

/// Feeding `text` to a decoder that holds `buffer`: the tokens of the lines
/// that are now complete, whether the end mark was met, and the incomplete
/// last line that stays buffered.
pub open spec fn sse_feed(buffer: Seq<char>, text: Seq<char>) -> (Seq<Seq<char>>, bool, Seq<char>) {
    let pieces = split_char(buffer + text, '\n');
    let (tokens, done) = sse_scan(pieces.drop_last());
    (tokens, done, pieces.last())
}

/// The state of a streamed reply being decoded: the text of an incomplete
/// line, and whether the end mark has been met.
#[derive(Debug, Clone, PartialEq, Eq)]
pub struct SseDecoder {
    pub buffer: String,
    pub finished: bool,
}

impl SseDecoder {
    pub fn new() -> (r: SseDecoder)
        ensures
            r.buffer@ == Seq::<char>::empty(),
            !r.finished,
    {
        SseDecoder { buffer: String::new(), finished: false }
    }

    /// Takes the next piece of the reply's text and returns the tokens it
    /// completes. After the end mark the decoder takes nothing more.
    pub fn feed(&mut self, text: &str) -> (tokens: Vec<String>)
        ensures
            old(self).finished ==> tokens@.len() == 0 && *final(self) == *old(self),
            !old(self).finished ==> {
                let (t, done, rest) = sse_feed(old(self).buffer@, text@);
                &&& views(tokens@) == t
                &&& final(self).finished == done
                &&& final(self).buffer@ == if done {
                    Seq::<char>::empty()
                } else {
                    rest
                }
            },
    {
        if self.finished {
            return Vec::new();
        }
        let mut all = to_owned(self.buffer.as_str());
        all.append(text);
        let pieces = split_by_char(all.as_str(), '\n');
        proof {
            lemma_split_char_nonempty(all@, '\n');
        }
        let n = pieces.len() - 1;
        let ghost lines = views(pieces@).drop_last();
        let mut tokens: Vec<String> = Vec::new();
        let mut i: usize = 0;
        assert(lines.skip(0) =~= lines);
        while i < n
            invariant
                0 <= i <= n,
                n == pieces@.len() - 1,
                lines == views(pieces@).drop_last(),
                !old(self).finished,
                *self == *old(self),
                all@ == old(self).buffer@ + text@,
                views(pieces@) == split_char(all@, '\n'),
                sse_scan(lines) == (views(tokens@) + sse_scan(lines.skip(i as int)).0, sse_scan(
                    lines.skip(i as int),
                ).1),
            decreases n - i,
        {
            let line = trim_str(pieces[i].as_str());
            proof {
                assert(lines.skip(i as int)[0] == pieces@[i as int]@);
                assert(lines.skip(i as int).drop_first() =~= lines.skip(i + 1));
                reveal_strlit("data: ");
            }
            if str_starts_with(line, DATA_PREFIX) {
                let data = skip_chars(line, 6);
                if str_eq(data, DONE_MARK) {
                    self.buffer = String::new();
                    self.finished = true;
                    proof {
                        assert(views(tokens@) + Seq::<Seq<char>>::empty() =~= views(tokens@));
                    }
                    return tokens;
                }
                match delta_content(data) {
                    Some(c) => {
                        if c.as_str().unicode_len() > 0 {
                            let ghost before = tokens@;
                            tokens.push(c);
                            proof {
                                crate::text::lemma_views_push(before, c);
                                let rest = sse_scan(lines.skip(i + 1));
                                assert(views(before) + (seq![c@] + rest.0) =~= views(tokens@) + rest.0);
                            }
                        }
                    },
                    None => {},
                }
            }
            i = i + 1;
        }
        proof {
            assert(lines.skip(i as int).len() == 0);
            assert(views(tokens@) + Seq::<Seq<char>>::empty() =~= views(tokens@));
        }
        self.buffer = to_owned(pieces[n].as_str());
        tokens
    }
}


// ─── Laws of decoding ─────────────────────────────────────────────────────

proof fn lemma_sse_scan_concat(a: Seq<Seq<char>>, b: Seq<Seq<char>>)
    ensures
        sse_scan(a + b) == if sse_scan(a).1 {
            sse_scan(a)
        } else {
            (sse_scan(a).0 + sse_scan(b).0, sse_scan(b).1)
        },
    decreases a.len(),
{
    if a.len() == 0 {
        assert(a + b =~= b);
        assert(Seq::<Seq<char>>::empty() + sse_scan(b).0 =~= sse_scan(b).0);
    } else {
        lemma_sse_scan_concat(a.drop_first(), b);
        assert((a + b).drop_first() =~= a.drop_first() + b);
        assert((a + b)[0] == a[0]);
        let ra = sse_scan(a.drop_first());
        let rb = sse_scan(b);
        if !ra.1 {
            let l = trim(a[0]);
            if starts_with(l, DATA_PREFIX@) && l.skip(6) != DONE_MARK@ {
                if let Some(c) = spec_delta_content(l.skip(6)) {
                    if c.len() > 0 {
                        assert(seq![c] + (ra.0 + rb.0) =~= (seq![c] + ra.0) + rb.0);
                    }
                }
            }
        }
    }
}

/// Decoding does not depend on how the reply's text is cut into pieces:
/// feeding `a` then `b` gives the tokens and state that feeding `a + b` gives
/// (and after the end mark, `b` changes nothing).
pub proof fn lemma_sse_feed_chunking(buffer: Seq<char>, a: Seq<char>, b: Seq<char>)
    ensures
        ({
            let (t1, d1, r1) = sse_feed(buffer, a);
            let whole = sse_feed(buffer, a + b);
            if d1 {
                whole.0 == t1 && whole.1
            } else {
                let (t2, d2, r2) = sse_feed(r1, b);
                whole == (t1 + t2, d2, r2)
            }
        }),
{
    let x = buffer + a;
    assert(buffer + (a + b) =~= x + b);
    lemma_split_char_concat(x, b, '\n');
    let px = split_char(x, '\n');
    let r1 = px.last();
    let pr = split_char(r1 + b, '\n');
    lemma_split_char_nonempty(r1 + b, '\n');
    let whole = split_char(x + b, '\n');
    assert(whole.drop_last() =~= px.drop_last() + pr.drop_last());
    assert(whole.last() == pr.last());
    lemma_sse_scan_concat(px.drop_last(), pr.drop_last());
}

/// The text of a reply that arrived in `chunks`, in order.
pub open spec fn chunks_text(chunks: Seq<Seq<char>>) -> Seq<char>
    decreases chunks.len(),
{
    if chunks.len() == 0 {
        Seq::empty()
    } else {
        chunks_text(chunks.drop_last()) + chunks.last()
    }
}

/// A fresh decoder fed `chunks` in order, one `feed` each: all the tokens it
/// returned, whether it has met the end mark, and what it buffers.
pub open spec fn decode_chunks(chunks: Seq<Seq<char>>) -> (Seq<Seq<char>>, bool, Seq<char>)
    decreases chunks.len(),
{
    if chunks.len() == 0 {
        (Seq::empty(), false, Seq::empty())
    } else {
        let (t, done, buf) = decode_chunks(chunks.drop_last());
        if done {
            (t, true, buf)
        } else {
            let (t2, d2, r2) = sse_feed(buf, chunks.last());
            (t + t2, d2, if d2 {
                Seq::empty()
            } else {
                r2
            })
        }
    }
}

/// A whole streamed reply: a fresh decoder fed the reply in any number of
/// chunks returns, over all its calls, exactly the tokens of the complete
/// lines of the whole text (the non-empty delta contents of its `data: `
/// lines, in order, up to the first `data: [DONE]`), meets the end mark
/// exactly when the whole text holds it, and otherwise buffers the whole
/// text's incomplete last line.
pub proof fn lemma_sse_stream(chunks: Seq<Seq<char>>)
    ensures
        ({
            let whole = sse_feed(Seq::empty(), chunks_text(chunks));
            let d = decode_chunks(chunks);
            &&& d.0 == whole.0
            &&& d.1 == whole.1
            &&& !d.1 ==> d.2 == whole.2
        }),
    decreases chunks.len(),
{
    if chunks.len() == 0 {
        let e = Seq::<char>::empty();
        assert(e + e =~= e);
        assert(split_char(e, '\n') == seq![e]);
        assert(seq![e].drop_last() =~= Seq::<Seq<char>>::empty());
    } else {
        let pre = chunks.drop_last();
        let c = chunks.last();
        lemma_sse_stream(pre);
        lemma_sse_feed_chunking(Seq::empty(), chunks_text(pre), c);
        assert(chunks_text(chunks) == chunks_text(pre) + c);
        let wp = sse_feed(Seq::empty(), chunks_text(pre));
        let dp = decode_chunks(pre);
        if !dp.1 {
            let (t2, d2, r2) = sse_feed(dp.2, c);
            assert(sse_feed(wp.2, c) == (t2, d2, r2));
        }
    }
}

proof fn lemma_sse_feed_first_line(l: Seq<char>, rest: Seq<char>)
    requires
        forall|k: int| 0 <= k < l.len() ==> l[k] != '\n',
    ensures
        sse_feed(Seq::empty(), l + seq!['\n'] + rest).0 == sse_scan(
            seq![l] + split_char(rest, '\n').drop_last(),
        ).0,
        sse_feed(Seq::empty(), l + seq!['\n'] + rest).1 == sse_scan(
            seq![l] + split_char(rest, '\n').drop_last(),
        ).1,
        sse_feed(Seq::empty(), l + seq!['\n'] + rest).2 == split_char(rest, '\n').last(),
        sse_feed(Seq::empty(), rest) == (
            sse_scan(split_char(rest, '\n').drop_last()).0,
            sse_scan(split_char(rest, '\n').drop_last()).1,
            split_char(rest, '\n').last(),
        ),
{
    let t = l + seq!['\n'] + rest;
    assert(Seq::<char>::empty() + t =~= t);
    assert(Seq::<char>::empty() + rest =~= rest);
    crate::text::lemma_split_char_after(l, rest, '\n');
    lemma_split_char_nonempty(rest, '\n');
    let pr = split_char(rest, '\n');
    assert((seq![l] + pr).drop_last() =~= seq![l] + pr.drop_last());
    assert((seq![l] + pr).last() == pr.last());
}

/// A complete `data: ` line whose JSON chunk carries non-empty delta content
/// yields that content as one token, exactly as the chunk carries it (white
/// space included), and decoding goes on with the rest of the text.
pub proof fn lemma_sse_data_line_yields_its_content(l: Seq<char>, c: Seq<char>, rest: Seq<char>)
    requires
        forall|k: int| 0 <= k < l.len() ==> l[k] != '\n',
        starts_with(trim(l), DATA_PREFIX@),
        trim(l).skip(6) != DONE_MARK@,
        spec_delta_content(trim(l).skip(6)) == Some(c),
        c.len() > 0,
    ensures
        sse_feed(Seq::empty(), l + seq!['\n'] + rest) == (
            seq![c] + sse_feed(Seq::empty(), rest).0,
            sse_feed(Seq::empty(), rest).1,
            sse_feed(Seq::empty(), rest).2,
        ),
{
    lemma_sse_feed_first_line(l, rest);
    let ls = seq![l] + split_char(rest, '\n').drop_last();
    assert(ls[0] == l);
    assert(ls.drop_first() =~= split_char(rest, '\n').drop_last());
}

/// A complete `data: [DONE]` line ends the reply: it yields no token, and no
/// later line yields one.
pub proof fn lemma_sse_done_line_ends_the_reply(l: Seq<char>, rest: Seq<char>)
    requires
        forall|k: int| 0 <= k < l.len() ==> l[k] != '\n',
        starts_with(trim(l), DATA_PREFIX@),
        trim(l).skip(6) == DONE_MARK@,
    ensures
        sse_feed(Seq::empty(), l + seq!['\n'] + rest).0.len() == 0,
        sse_feed(Seq::empty(), l + seq!['\n'] + rest).1,
{
    lemma_sse_feed_first_line(l, rest);
    let ls = seq![l] + split_char(rest, '\n').drop_last();
    assert(ls[0] == l);
}

/// A complete line that carries no token (not a `data: ` line, or a chunk
/// without non-empty delta content) changes nothing: decoding goes on with
/// the rest of the text as if the line were not there.
pub proof fn lemma_sse_line_without_token_is_skipped(l: Seq<char>, rest: Seq<char>)
    requires
        forall|k: int| 0 <= k < l.len() ==> l[k] != '\n',
        !starts_with(trim(l), DATA_PREFIX@) || (trim(l).skip(6) != DONE_MARK@ && match spec_delta_content(
            trim(l).skip(6),
        ) {
            Some(c) => c.len() == 0,
            None => true,
        }),
    ensures
        sse_feed(Seq::empty(), l + seq!['\n'] + rest) == sse_feed(Seq::empty(), rest),
{
    lemma_sse_feed_first_line(l, rest);
    let ls = seq![l] + split_char(rest, '\n').drop_last();
    assert(ls[0] == l);
    assert(ls.drop_first() =~= split_char(rest, '\n').drop_last());
}

/// Text without a line break yields nothing yet and is kept whole in the buffer.
pub proof fn lemma_sse_incomplete_line_is_buffered(buffer: Seq<char>, text: Seq<char>)
    requires
        forall|k: int| 0 <= k < buffer.len() ==> buffer[k] != '\n',
        forall|k: int| 0 <= k < text.len() ==> text[k] != '\n',
    ensures
        sse_feed(buffer, text) == (Seq::<Seq<char>>::empty(), false, buffer + text),
{
    let t = buffer + text;
    assert forall|k: int| 0 <= k < t.len() implies t[k] != '\n' by {
        if k < buffer.len() {
            assert(t[k] == buffer[k]);
        } else {
            assert(t[k] == text[k - buffer.len()]);
        }
    }
    crate::text::lemma_split_char_no_sep(t, '\n');
    assert(seq![t].drop_last() =~= Seq::<Seq<char>>::empty());
}

} // verus!
