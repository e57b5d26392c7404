//! The scanner: from the bytes of a source file to its tokens.
use vstd::prelude::*;
use vstd::std_specs::iter::IteratorSpec;
use vstd::utf8::{valid_utf8, decode_utf8};
use crate::NyoomError;

verus! {

/// The three tokens of Nyoom: `nyoom`, `nugget` and `I`.
#[derive(Debug, Clone, Copy, PartialEq, Eq, Structural)]
pub enum Token {
    Prim,
    Sec,
    Split,
}

/// `String::from_utf8`: the string that the bytes encode, when they are valid UTF-8.
///
/// Trusted: the contract states std's documented behaviour (an error exactly on invalid
/// UTF-8, otherwise the decoded characters), with validity and decoding as vstd defines them.
#[verifier::external_body]
fn string_from_utf8(bytes: Vec<u8>) -> (r: Option<String>)
    ensures
        r is Some <==> valid_utf8(bytes@),
        r matches Some(s) ==> s@ == decode_utf8(bytes@),
{
    String::from_utf8(bytes).ok()
}

/// The characters of a string, in order.
fn chars_of(s: &String) -> (r: Vec<char>)
    ensures
        r@ == s@,
{
    broadcast use vstd::string::group_string_axioms;

    let text = s.as_str();
    let mut it = text.chars();
    let mut out: Vec<char> = Vec::new();
    loop
        invariant
            text@ == s@,
            out@ + it.remaining() == s@,
            it.decrease() is Some,
        ensures
            out@ == s@,
        decreases it.decrease()->0,
    {
        match it.next() {
            Some(c) => {
                out.push(c);
            },
            None => {
                break;
            },
        }
    }
    out
}

/// `char::is_whitespace`: the characters with Unicode's White_Space property.
pub open spec fn is_white_space(c: char) -> bool {
    let u = c as u32;
    ||| 0x9 <= u <= 0xD
    ||| u == 0x20
    ||| u == 0x85
    ||| u == 0xA0
    ||| u == 0x1680
    ||| 0x2000 <= u <= 0x200A
    ||| u == 0x2028
    ||| u == 0x2029
    ||| u == 0x202F
    ||| u == 0x205F
    ||| u == 0x3000
}

/// Computes `is_white_space(c)`.
pub fn white_space(c: char) -> (r: bool)
    ensures
        r == is_white_space(c),
{
    let u = c as u32;
    (0x9 <= u && u <= 0xD) || u == 0x20 || u == 0x85 || u == 0xA0 || u == 0x1680 || (0x2000 <= u
        && u <= 0x200A) || u == 0x2028 || u == 0x2029 || u == 0x202F || u == 0x205F || u == 0x3000
}

/// The word that stands for the end of a line.
pub open spec fn newline_word() -> Seq<char> {
    seq!['\n']
}

/// `ws` with the word `cur` added, unless `cur` is empty.
pub open spec fn flush(ws: Seq<Seq<char>>, cur: Seq<char>) -> Seq<Seq<char>> {
    if cur.len() == 0 {
        ws
    } else {
        ws.push(cur)
    }
}

/// Reading `s` from the left: the words completed so far (each line's words followed by
/// the newline word), and the word being read.
pub open spec fn split_state(s: Seq<char>) -> (Seq<Seq<char>>, Seq<char>)
    decreases s.len(),
{
    if s.len() == 0 {
        (Seq::empty(), Seq::empty())
    } else {
        let (ws, cur) = split_state(s.drop_last());
        let c = s.last();
        if c == '\n' {
            (flush(ws, cur).push(newline_word()), Seq::empty())
        } else if is_white_space(c) {
            (flush(ws, cur), Seq::empty())
        } else {
            (ws, cur.push(c))
        }
    }
}

/// The words of a text: for each of its lines (as `str::lines` cuts them), the line's
/// whitespace-separated words, then the newline word.
pub open spec fn split_words(s: Seq<char>) -> Seq<Seq<char>> {
    let (ws, cur) = split_state(s);
    let all = flush(ws, cur);
    if s.len() > 0 && s.last() != '\n' {
        all.push(newline_word())
    } else {
        all
    }
}

/// Whether a word is the newline word, or a non-empty run of characters that are not
/// whitespace.
pub open spec fn whole_word(w: Seq<char>) -> bool {
    w == newline_word() || (w.len() > 0 && forall|j: int| 0 <= j < w.len() ==> !is_white_space(
        #[trigger] w[j],
    ))
}

proof fn lemma_split_state_whole(s: Seq<char>)
    ensures
        forall|i: int| 0 <= i < split_state(s).0.len() ==> whole_word(#[trigger] split_state(s).0[i]),
        forall|j: int| 0 <= j < split_state(s).1.len() ==> !is_white_space(#[trigger] split_state(s).1[j]),
    decreases s.len(),
{
    if s.len() > 0 {
        lemma_split_state_whole(s.drop_last());
        let (ws, cur) = split_state(s.drop_last());
        let f = flush(ws, cur);
        assert forall|i: int| 0 <= i < f.len() implies whole_word(#[trigger] f[i]) by {
            if i < ws.len() {
                assert(f[i] == ws[i]);
            } else {
                assert(f[i] == cur);
            }
        }
        let c = s.last();
        if c == '\n' {
            let g = f.push(newline_word());
            assert forall|i: int| 0 <= i < g.len() implies whole_word(#[trigger] g[i]) by {
                if i < f.len() {
                    assert(g[i] == f[i]);
                }
            }
        } else if !is_white_space(c) {
            assert forall|j: int| 0 <= j < cur.push(c).len() implies !is_white_space(
                #[trigger] cur.push(c)[j],
            ) by {
                if j < cur.len() {
                    assert(cur.push(c)[j] == cur[j]);
                }
            }
        }
    }
}

/// Words are whole: every word of a text is the newline word or a non-empty run of
/// characters that are not whitespace.
pub proof fn law_words_are_whole(s: Seq<char>)
    ensures
        forall|i: int| 0 <= i < split_words(s).len() ==> whole_word(#[trigger] split_words(s)[i]),
{
    lemma_split_state_whole(s);
    let (ws, cur) = split_state(s);
    let f = flush(ws, cur);
    assert forall|i: int| 0 <= i < f.len() implies whole_word(#[trigger] f[i]) by {
        if i < ws.len() {
            assert(f[i] == ws[i]);
        } else {
            assert(f[i] == cur);
        }
    }
    if s.len() > 0 && s.last() != '\n' {
        let g = f.push(newline_word());
        assert forall|i: int| 0 <= i < g.len() implies whole_word(#[trigger] g[i]) by {
            if i < f.len() {
                assert(g[i] == f[i]);
            }
        }
    }
}

/// The words that a vector of words holds.
pub open spec fn words_view(ws: Seq<Vec<char>>) -> Seq<Seq<char>> {
    ws.map_values(|w: Vec<char>| w@)
}

/// Cuts the text that `bytes` encode into words: each line's words, then a newline word.
pub fn split(bytes: Vec<u8>) -> (r: Result<Vec<Vec<char>>, NyoomError>)
    requires
        valid_utf8(bytes@),
    ensures
        r is Ok,
        r matches Ok(ws) ==> words_view(ws@) == split_words(decode_utf8(bytes@)),
{
    let text = string_from_utf8(bytes);
    let text = match text {
        Some(t) => t,
        None => {
            proof {
                assert(false);
            }
            String::new()
        },
    };
    let cs = chars_of(&text);
    let ghost s = cs@;
    let mut ws: Vec<Vec<char>> = Vec::new();
    let mut cur: Vec<char> = Vec::new();
    let mut i: usize = 0;
    while i < cs.len()
        invariant
            i <= cs.len(),
            s == cs@,
            (words_view(ws@), cur@) == split_state(s.take(i as int)),
        decreases cs.len() - i,
    {
        let c = cs[i];
        assert(s.take(i + 1).drop_last() =~= s.take(i as int));
        if c == '\n' {
            if cur.len() > 0 {
                ws.push(cur);
            }
            let mut nl: Vec<char> = Vec::new();
            nl.push('\n');
            ws.push(nl);
            cur = Vec::new();
            assert(words_view(ws@) =~= split_state(s.take(i + 1)).0);
        } else if white_space(c) {
            if cur.len() > 0 {
                ws.push(cur);
            }
            cur = Vec::new();
            assert(words_view(ws@) =~= split_state(s.take(i + 1)).0);
        } else {
            cur.push(c);
            assert(cur@ =~= split_state(s.take(i + 1)).1);
        }
        i = i + 1;
    }
    assert(s.take(cs.len() as int) =~= s);
    if cur.len() > 0 {
        ws.push(cur);
    }
    assert(words_view(ws@) =~= flush(split_state(s).0, split_state(s).1));
    if cs.len() > 0 && cs[cs.len() - 1] != '\n' {
        let mut nl: Vec<char> = Vec::new();
        nl.push('\n');
        ws.push(nl);
        assert(words_view(ws@) =~= split_words(s));
    }
    Ok(ws)
}

/// The token that a word spells, if it spells one.
pub open spec fn token_of(w: Seq<char>) -> Option<Token> {
    if w == seq!['n', 'y', 'o', 'o', 'm'] {
        Some(Token::Prim)
    } else if w == seq!['n', 'u', 'g', 'g', 'e', 't'] {
        Some(Token::Sec)
    } else if w == seq!['I'] {
        Some(Token::Split)
    } else {
        None
    }
}

/// Whether a word holds `//`, which starts a comment.
pub open spec fn has_comment_mark(w: Seq<char>) -> bool {
    exists|j: int| 0 <= j && j + 1 < w.len() && #[trigger] w[j] == '/' && w[j + 1] == '/'
}

/// The tokens of the words from index `i` on, where `in_comment` says whether a comment is
/// open and `acc` holds the tokens already read. A word with `//` opens a comment, the
/// newline word closes it, words inside a comment and newline words are skipped, and any
/// other word must spell a token: otherwise the error names the word's index.
pub open spec fn scan_from(ws: Seq<Seq<char>>, i: int, in_comment: bool, acc: Seq<Token>) -> Result<
    Seq<Token>,
    NyoomError,
>
    decreases ws.len() - i,
{
    if i < 0 || i >= ws.len() {
        Ok(acc)
    } else if has_comment_mark(ws[i]) {
        scan_from(ws, i + 1, true, acc)
    } else if in_comment {
        scan_from(ws, i + 1, !ws[i].contains('\n'), acc)
    } else if ws[i].contains('\n') {
        scan_from(ws, i + 1, false, acc)
    } else {
        match token_of(ws[i]) {
            Some(t) => scan_from(ws, i + 1, false, acc.push(t)),
            None => Err(NyoomError::CompileError("Invalid token", i as usize)),
        }
    }
}

/// The tokens of a sequence of words.
pub open spec fn scan_words(ws: Seq<Seq<char>>) -> Result<Seq<Token>, NyoomError> {
    scan_from(ws, 0, false, Seq::empty())
}

/// The tokens that a scan result holds.
pub open spec fn tokens_result(r: Result<Vec<Token>, NyoomError>) -> Result<Seq<Token>, NyoomError> {
    match r {
        Ok(v) => Ok(v@),
        Err(e) => Err(e),
    }
}

/// Computes `token_of(w@)`.
fn word_token(w: &Vec<char>) -> (r: Option<Token>)
    ensures
        r == token_of(w@),
{
    if w.len() == 5 && w[0] == 'n' && w[1] == 'y' && w[2] == 'o' && w[3] == 'o' && w[4] == 'm' {
        assert(w@ =~= seq!['n', 'y', 'o', 'o', 'm']);
        Some(Token::Prim)
    } else if w.len() == 6 && w[0] == 'n' && w[1] == 'u' && w[2] == 'g' && w[3] == 'g' && w[4]
        == 'e' && w[5] == 't' {
        assert(w@ =~= seq!['n', 'u', 'g', 'g', 'e', 't']);
        assert(w@ != seq!['n', 'y', 'o', 'o', 'm']);
        Some(Token::Sec)
    } else if w.len() == 1 && w[0] == 'I' {
        assert(w@ =~= seq!['I']);
        assert(w@ != seq!['n', 'y', 'o', 'o', 'm']);
        assert(w@ != seq!['n', 'u', 'g', 'g', 'e', 't']);
        Some(Token::Split)
    } else {
        assert(w@ != seq!['n', 'y', 'o', 'o', 'm'] && w@ != seq!['n', 'u', 'g', 'g', 'e', 't'] && w@
            != seq!['I']) by {
            if w@ == seq!['n', 'y', 'o', 'o', 'm'] {
                assert(w@[4] == 'm');
            }
            if w@ == seq!['n', 'u', 'g', 'g', 'e', 't'] {
                assert(w@[5] == 't');
            }
            if w@ == seq!['I'] {
                assert(w@[0] == 'I');
            }
        }
        None
    }
}

/// Computes `has_comment_mark(w@)`.
fn word_has_comment_mark(w: &Vec<char>) -> (r: bool)
    ensures
        r == has_comment_mark(w@),
{
    let mut j: usize = 0;
    while j < w.len()
        invariant
            j <= w.len(),
            forall|k: int|
                0 <= k < j ==> !(k + 1 < w@.len() && #[trigger] w@[k] == '/' && w@[k + 1] == '/'),
        decreases w.len() - j,
    {
        if j + 1 < w.len() && w[j] == '/' && w[j + 1] == '/' {
            assert(w@[j as int] == '/');
            return true;
        }
        j = j + 1;
    }
    false
}

/// Computes `w@.contains('\n')`.
fn word_has_newline(w: &Vec<char>) -> (r: bool)
    ensures
        r == w@.contains('\n'),
{
    let mut j: usize = 0;
    while j < w.len()
        invariant
            j <= w.len(),
            forall|k: int| 0 <= k < j ==> w@[k] != '\n',
        decreases w.len() - j,
    {
        if w[j] == '\n' {
            assert(w@[j as int] == '\n');
            return true;
        }
        j = j + 1;
    }
    false
}

/// Scans source bytes into tokens.
pub fn scan(bytes: Vec<u8>) -> (r: Result<Vec<Token>, NyoomError>)
    requires
        valid_utf8(bytes@),
    ensures
        tokens_result(r) == scan_words(split_words(decode_utf8(bytes@))),
{
    let words = match split(bytes) {
        Ok(ws) => ws,
        Err(e) => {
            return Err(e);
        },
    };
    let ghost ws = words_view(words@);
    assert(ws == split_words(decode_utf8(bytes@)));
    let mut is_comment = false;
    let mut out: Vec<Token> = Vec::new();
    let mut i: usize = 0;
    while i < words.len()
        invariant
            i <= words.len(),
            ws == words_view(words@),
            ws == split_words(decode_utf8(bytes@)),
            ws.len() == words@.len(),
            scan_from(ws, 0, false, Seq::empty()) == scan_from(ws, i as int, is_comment, out@),
        decreases words.len() - i,
    {
        let w = &words[i];
        assert(ws[i as int] == w@);
        if word_has_comment_mark(w) {
            is_comment = true;
        } else if is_comment {
            if word_has_newline(w) {
                is_comment = false;
            }
        } else if word_has_newline(w) {
            // the end of a line, outside a comment, is skipped
        } else {
            match word_token(w) {
                Some(t) => {
                    out.push(t);
                },
                None => {
                    assert(token_of(ws[i as int]) is None);
                    assert(!is_comment);
                    assert(!has_comment_mark(ws[i as int]));
                    let e = NyoomError::CompileError("Invalid token", i);
                    assert(scan_from(ws, i as int, false, out@) == Err::<Seq<Token>, NyoomError>(e));
                    return Err(e);
                },
            }
        }
        i = i + 1;
    }
    Ok(out)
}

/// How a token is spelled.
pub open spec fn spelling(t: Token) -> Seq<char> {
    match t {
        Token::Prim => seq!['n', 'y', 'o', 'o', 'm'],
        Token::Sec => seq!['n', 'u', 'g', 'g', 'e', 't'],
        Token::Split => seq!['I'],
    }
}

/// The word of a line position: a token's spelling, or the end of a line.
pub open spec fn word_at(m: Option<Token>) -> Seq<char> {
    match m {
        Some(t) => spelling(t),
        None => newline_word(),
    }
}

/// The tokens among some line positions, in order.
pub open spec fn tokens_among(ms: Seq<Option<Token>>) -> Seq<Token>
    decreases ms.len(),
{
    if ms.len() == 0 {
        Seq::empty()
    } else {
        let head = match ms[0] {
            Some(t) => seq![t],
            None => Seq::<Token>::empty(),
        };
        head + tokens_among(ms.drop_first())
    }
}

proof fn lemma_plain_word(m: Option<Token>)
    ensures
        !has_comment_mark(word_at(m)),
        m is Some ==> !word_at(m).contains('\n'),
        m is None ==> word_at(m).contains('\n'),
        m matches Some(t) ==> token_of(word_at(m)) == Some(t),
{
    let w = word_at(m);
    assert forall|j: int| 0 <= j && j + 1 < w.len() implies !(#[trigger] w[j] == '/' && w[j + 1]
        == '/') by {}
    if m is Some {
        assert forall|j: int| 0 <= j < w.len() implies #[trigger] w[j] != '\n' by {}
    } else {
        assert(w[0] == '\n');
    }
}

proof fn lemma_scan_marks(ms: Seq<Option<Token>>, i: int, acc: Seq<Token>)
    requires
        0 <= i <= ms.len(),
    ensures
        scan_from(ms.map_values(|m: Option<Token>| word_at(m)), i, false, acc) == Ok::<
            Seq<Token>,
            NyoomError,
        >(acc + tokens_among(ms.subrange(i, ms.len() as int))),
    decreases ms.len() - i,
{
    let ws = ms.map_values(|m: Option<Token>| word_at(m));
    let rest = ms.subrange(i, ms.len() as int);
    if i < ms.len() {
        lemma_plain_word(ms[i]);
        assert(ws[i] == word_at(ms[i]));
        assert(rest.drop_first() =~= ms.subrange(i + 1, ms.len() as int));
        assert(rest[0] == ms[i]);
        match ms[i] {
            Some(t) => {
                lemma_scan_marks(ms, i + 1, acc.push(t));
                assert(acc.push(t) + tokens_among(rest.drop_first()) =~= acc + (seq![t]
                    + tokens_among(rest.drop_first())));
            },
            None => {
                lemma_scan_marks(ms, i + 1, acc);
                assert(Seq::<Token>::empty() + tokens_among(rest.drop_first()) =~= tokens_among(
                    rest.drop_first(),
                ));
            },
        }
    } else {
        assert(acc + tokens_among(rest) =~= acc);
    }
}

/// Scanning reads back what was spelled: words that each spell a token or end a line scan
/// to the spelled tokens, in order, whatever the line ends between them; so the spelled
/// words of any tokens scan to those tokens.
pub proof fn law_scan_reads_spelled_tokens(ms: Seq<Option<Token>>, toks: Seq<Token>)
    ensures
        scan_words(ms.map_values(|m: Option<Token>| word_at(m))) == Ok::<Seq<Token>, NyoomError>(
            tokens_among(ms),
        ),
        scan_words(toks.map_values(|t: Token| spelling(t))) == Ok::<Seq<Token>, NyoomError>(toks),
{
    lemma_scan_marks(ms, 0, Seq::empty());
    assert(ms.subrange(0, ms.len() as int) =~= ms);
    assert(Seq::<Token>::empty() + tokens_among(ms) =~= tokens_among(ms));
    let all = toks.map_values(|t: Token| Some(t));
    lemma_scan_marks(all, 0, Seq::empty());
    assert(all.subrange(0, all.len() as int) =~= all);
    assert(all.map_values(|m: Option<Token>| word_at(m)) =~= toks.map_values(|t: Token| spelling(t)));
    lemma_tokens_among_somes(toks);
    assert(Seq::<Token>::empty() + tokens_among(all) =~= tokens_among(all));
}

proof fn lemma_tokens_among_somes(toks: Seq<Token>)
    ensures
        tokens_among(toks.map_values(|t: Token| Some(t))) == toks,
    decreases toks.len(),
{
    let all = toks.map_values(|t: Token| Some(t));
    if toks.len() > 0 {
        lemma_tokens_among_somes(toks.drop_first());
        assert(all.drop_first() =~= toks.drop_first().map_values(|t: Token| Some(t)));
        assert(seq![toks[0]] + toks.drop_first() =~= toks);
    } else {
        assert(tokens_among(all) =~= toks);
    }
}

} // verus!
