//! Tokenization, prefix matching and scoring for the search index, and
//! whitespace trimming for the caller-side input policy.
//!
//! A token is a maximal run of word characters; word characters are the
//! ASCII alphanumerics together with every non-ASCII character.  A query
//! matches a note when each of the query's tokens is a prefix of some
//! token of the note's title or of its body.  Relevance is the number of
//! note tokens that some query token is a prefix of, over both columns.
use vstd::prelude::*;

verus! {

/// A word character: an ASCII letter or digit, or any non-ASCII character.
pub open spec fn is_word_char(c: char) -> bool {
    let u = c as u32;
    u >= 128 || (48 <= u && u <= 57) || (65 <= u && u <= 90) || (97 <= u && u <= 122)
}

/// Executable check for [`is_word_char`].
pub fn is_word_char_x(c: char) -> (b: bool)
    ensures
        b == is_word_char(c),
{
    let u = c as u32;
    u >= 128 || (48 <= u && u <= 57) || (65 <= u && u <= 90) || (97 <= u && u <= 122)
}

/// Where the run of word characters beginning at `i` ends.
pub open spec fn token_end(s: Seq<char>, i: int) -> int
    decreases s.len() - i,
{
    if i < 0 || i >= s.len() || !is_word_char(s[i]) {
        i
    } else {
        token_end(s, i + 1)
    }
}

/// `i` begins a token: a word character not preceded by one.
pub open spec fn is_token_start(s: Seq<char>, i: int) -> bool {
    &&& 0 <= i < s.len()
    &&& is_word_char(s[i])
    &&& (i == 0 || !is_word_char(s[i - 1]))
}

/// The token beginning at `i`.
pub open spec fn token_at(s: Seq<char>, i: int) -> Seq<char> {
    s.subrange(i, token_end(s, i))
}

/// `tok` occurs at position `j` of `text`, starting on a token boundary:
/// `tok` is then a prefix of the token that begins there.
pub open spec fn occurs_at(text: Seq<char>, tok: Seq<char>, j: int) -> bool {
    &&& 0 <= j
    &&& j + tok.len() <= text.len()
    &&& (j == 0 || !is_word_char(text[j - 1]))
    &&& text.subrange(j, j + tok.len()) == tok
}

/// `tok` is a prefix of some token of `text`.
pub open spec fn tok_occurs(text: Seq<char>, tok: Seq<char>) -> bool {
    exists|j: int| occurs_at(text, tok, j)
}

/// The query matches: every token of `q` is a prefix of some token of
/// the title or of the body.  A query without tokens matches every note.
pub open spec fn note_matches(q: Seq<char>, title: Seq<char>, body: Seq<char>) -> bool {
    forall|i: int|
        is_token_start(q, i) ==> tok_occurs(title, #[trigger] token_at(q, i)) || tok_occurs(
            body,
            token_at(q, i),
        )
}

/// A token of `text` begins at `j` and some token of `q` is a prefix of it.
pub open spec fn hit_at(q: Seq<char>, text: Seq<char>, j: int) -> bool {
    &&& is_token_start(text, j)
    &&& exists|i: int| is_token_start(q, i) && occurs_at(text, #[trigger] token_at(q, i), j)
}

/// How many positions below `upto` are hits.
pub open spec fn count_hits(q: Seq<char>, text: Seq<char>, upto: int) -> int
    decreases upto,
{
    if upto <= 0 {
        0
    } else {
        count_hits(q, text, upto - 1) + if hit_at(q, text, upto - 1) {
            1int
        } else {
            0int
        }
    }
}

/// The relevance of a note for a query: matched token starts, over both
/// columns.
pub open spec fn relevance(q: Seq<char>, title: Seq<char>, body: Seq<char>) -> int {
    count_hits(q, title, title.len() as int) + count_hits(q, body, body.len() as int)
}

/// Hit counts are bounded by the range counted over.
pub proof fn lemma_count_hits_bound(q: Seq<char>, text: Seq<char>, upto: int)
    ensures
        0 <= count_hits(q, text, upto),
        upto >= 0 ==> count_hits(q, text, upto) <= upto,
    decreases upto,
{
    if upto > 0 {
        lemma_count_hits_bound(q, text, upto - 1);
    }
}

/// The characters of a string, in order.
pub fn chars_of(s: &str) -> (v: Vec<char>)
    ensures
        v@ == s@,
{
    let n = s.unicode_len();
    let mut v: Vec<char> = Vec::new();
    let mut i: usize = 0;
    while i < n
        invariant
            n == s@.len(),
            i <= n,
            v@ == s@.take(i as int),
        decreases n - i,
    {
        v.push(s.get_char(i));
        i = i + 1;
        proof {
            assert(v@ =~= s@.take(i as int));
        }
    }
    proof {
        assert(v@ =~= s@);
    }
    v
}

/// Walk to the end of the run of word characters beginning at `i`.
pub fn token_end_x(s: &Vec<char>, i: usize) -> (e: usize)
    requires
        i <= s@.len(),
    ensures
        i <= e <= s@.len(),
        e == token_end(s@, i as int),
        i < s@.len() && is_word_char(s@[i as int]) ==> e > i,
{
    let mut e = i;
    while e < s.len() && is_word_char_x(s[e])
        invariant
            i <= e <= s@.len(),
            token_end(s@, i as int) == token_end(s@, e as int),
        decreases s@.len() - e,
    {
        proof {
            assert(token_end(s@, e as int) == token_end(s@, e + 1 as int));
        }
        e = e + 1;
    }
    proof {
        assert(token_end(s@, e as int) == e);
    }
    e
}

/// Compare `text[j .. j + (te - ts)]` with `q[ts .. te]`.
fn seq_eq_at(text: &Vec<char>, j: usize, q: &Vec<char>, ts: usize, te: usize) -> (b: bool)
    requires
        ts <= te <= q@.len(),
        j + (te - ts) <= text@.len(),
    ensures
        b == (text@.subrange(j as int, j + (te - ts)) == q@.subrange(ts as int, te as int)),
{
    let len = te - ts;
    let mut k: usize = 0;
    while k < len
        invariant
            k <= len,
            len == te - ts,
            ts <= te <= q@.len(),
            j + len <= text@.len(),
            forall|m: int| 0 <= m < k ==> (#[trigger] text@[j + m]) == q@[ts + m],
        decreases len - k,
    {
        proof {
            assert(text@.len() == text.len());
            assert(q@.len() == q.len());
        }
        if text[j + k] != q[ts + k] {
            proof {
                let a = text@.subrange(j as int, j + len);
                let b = q@.subrange(ts as int, te as int);
                assert(a[k as int] == text@[j + k]);
                assert(b[k as int] == q@[ts + k]);
            }
            return false;
        }
        k = k + 1;
    }
    proof {
        let a = text@.subrange(j as int, j + len);
        let b = q@.subrange(ts as int, te as int);
        assert forall|m: int| 0 <= m < len implies a[m] == b[m] by {
            assert(text@[j + m] == q@[ts + m]);
        }
        assert(a =~= b);
    }
    true
}

/// Does `q[ts .. te]` occur at position `j` of `text`, on a token
/// boundary?
fn occurs_at_x(text: &Vec<char>, j: usize, q: &Vec<char>, ts: usize, te: usize) -> (b: bool)
    requires
        ts <= te <= q@.len(),
        j <= text@.len(),
    ensures
        b == occurs_at(text@, q@.subrange(ts as int, te as int), j as int),
{
    let len = te - ts;
    if len > text.len() - j {
        return false;
    }
    if j > 0 && is_word_char_x(text[j - 1]) {
        return false;
    }
    seq_eq_at(text, j, q, ts, te)
}

/// Is `q[ts .. te]` a prefix of some token of `text`?
fn tok_occurs_x(text: &Vec<char>, q: &Vec<char>, ts: usize, te: usize) -> (b: bool)
    requires
        ts < te <= q@.len(),
    ensures
        b == tok_occurs(text@, q@.subrange(ts as int, te as int)),
{
    let ghost tok = q@.subrange(ts as int, te as int);
    let len = te - ts;
    if len > text.len() {
        proof {
            assert forall|j: int| !occurs_at(text@, tok, j) by {}
        }
        return false;
    }
    let positions = text.len() - len + 1;
    let mut j: usize = 0;
    while j < positions
        invariant
            j <= positions,
            positions == text@.len() - len + 1,
            len == te - ts,
            ts < te <= q@.len(),
            len <= text@.len(),
            tok == q@.subrange(ts as int, te as int),
            forall|m: int| 0 <= m < j ==> !occurs_at(text@, tok, m),
        decreases positions - j,
    {
        if occurs_at_x(text, j, q, ts, te) {
            return true;
        }
        j = j + 1;
    }
    proof {
        assert forall|m: int| !occurs_at(text@, tok, m) by {
            if 0 <= m < positions {
            }
        }
    }
    false
}

/// Does the query match this title and body?
pub fn note_matches_x(q: &Vec<char>, title: &Vec<char>, body: &Vec<char>) -> (b: bool)
    ensures
        b == note_matches(q@, title@, body@),
{
    let mut i: usize = 0;
    while i < q.len()
        invariant
            i <= q@.len(),
            forall|m: int|
                0 <= m < i && is_token_start(q@, m) ==> tok_occurs(
                    title@,
                    #[trigger] token_at(q@, m),
                ) || tok_occurs(body@, token_at(q@, m)),
        decreases q@.len() - i,
    {
        let start = is_word_char_x(q[i]) && (i == 0 || !is_word_char_x(q[i - 1]));
        if start {
            let e = token_end_x(q, i);
            let found = tok_occurs_x(title, q, i, e) || tok_occurs_x(body, q, i, e);
            if !found {
                proof {
                    assert(is_token_start(q@, i as int));
                    assert(token_at(q@, i as int) == q@.subrange(i as int, e as int));
                }
                return false;
            }
        }
        i = i + 1;
    }
    true
}

/// Is position `j` of `text` a hit for the query?
fn hit_x(q: &Vec<char>, text: &Vec<char>, j: usize) -> (b: bool)
    requires
        j < text@.len(),
    ensures
        b == hit_at(q@, text@, j as int),
{
    let start = is_word_char_x(text[j]) && (j == 0 || !is_word_char_x(text[j - 1]));
    if !start {
        return false;
    }
    let mut i: usize = 0;
    while i < q.len()
        invariant
            i <= q@.len(),
            j < text@.len(),
            is_token_start(text@, j as int),
            forall|m: int|
                0 <= m < i ==> !(is_token_start(q@, m) && occurs_at(
                    text@,
                    #[trigger] token_at(q@, m),
                    j as int,
                )),
        decreases q@.len() - i,
    {
        let tstart = is_word_char_x(q[i]) && (i == 0 || !is_word_char_x(q[i - 1]));
        if tstart {
            let e = token_end_x(q, i);
            if occurs_at_x(text, j, q, i, e) {
                proof {
                    assert(token_at(q@, i as int) == q@.subrange(i as int, e as int));
                    assert(is_token_start(q@, i as int) && occurs_at(
                        text@,
                        token_at(q@, i as int),
                        j as int,
                    ));
                }
                return true;
            }
            proof {
                assert(token_at(q@, i as int) == q@.subrange(i as int, e as int));
            }
        }
        i = i + 1;
    }
    false
}

/// Count the hits of the query over all of `text`.
fn count_hits_x(q: &Vec<char>, text: &Vec<char>) -> (n: usize)
    ensures
        n == count_hits(q@, text@, text@.len() as int),
{
    let mut n: usize = 0;
    let mut j: usize = 0;
    while j < text.len()
        invariant
            j <= text@.len(),
            n == count_hits(q@, text@, j as int),
            n <= j,
        decreases text@.len() - j,
    {
        if hit_x(q, text, j) {
            n = n + 1;
        }
        j = j + 1;
    }
    n
}

/// The relevance of a note for a query, over title and body.
pub fn relevance_x(q: &Vec<char>, title: &Vec<char>, body: &Vec<char>) -> (r: u128)
    ensures
        r == relevance(q@, title@, body@),
{
    let a = count_hits_x(q, title);
    let b = count_hits_x(q, body);
    proof {
        lemma_count_hits_bound(q@, title@, title@.len() as int);
        lemma_count_hits_bound(q@, body@, body@.len() as int);
    }
    a as u128 + b as u128
}

/// An ASCII whitespace character, as the input policy trims them.
pub open spec fn is_space(c: char) -> bool {
    c == ' ' || c == '\t' || c == '\n' || c == '\r'
}

/// Executable check for [`is_space`].
pub fn is_space_x(c: char) -> (b: bool)
    ensures
        b == is_space(c),
{
    c == ' ' || c == '\t' || c == '\n' || c == '\r'
}

/// Drop leading whitespace.
pub open spec fn trim_front(s: Seq<char>) -> Seq<char>
    decreases s.len(),
{
    if s.len() > 0 && is_space(s[0]) {
        trim_front(s.drop_first())
    } else {
        s
    }
}

/// Drop trailing whitespace.
pub open spec fn trim_back(s: Seq<char>) -> Seq<char>
    decreases s.len(),
{
    if s.len() > 0 && is_space(s.last()) {
        trim_back(s.drop_last())
    } else {
        s
    }
}

/// The string with leading and trailing whitespace dropped.
pub open spec fn trimmed(s: Seq<char>) -> Seq<char> {
    trim_back(trim_front(s))
}

proof fn lemma_trim_front_skip(s: Seq<char>, i: int)
    requires
        0 <= i <= s.len(),
        forall|k: int| 0 <= k < i ==> is_space(s[k]),
        i == s.len() || !is_space(s[i]),
    ensures
        trim_front(s) == s.skip(i),
    decreases i,
{
    if i == 0 {
        assert(s.skip(0) =~= s);
    } else {
        let t = s.drop_first();
        assert(t =~= s.skip(1));
        lemma_trim_front_skip(t, i - 1);
        assert(t.skip(i - 1) =~= s.skip(i));
    }
}

proof fn lemma_trim_back_take(s: Seq<char>, j: int)
    requires
        0 <= j <= s.len(),
        forall|k: int| j <= k < s.len() ==> is_space(s[k]),
        j == 0 || !is_space(s[j - 1]),
    ensures
        trim_back(s) == s.take(j),
    decreases s.len() - j,
{
    if j == s.len() {
        assert(s.take(j) =~= s);
    } else {
        let t = s.drop_last();
        lemma_trim_back_take(t, j);
        assert(t.take(j) =~= s.take(j));
    }
}

/// Trim ASCII whitespace from both ends.
pub fn trim_str(s: &str) -> (r: String)
    ensures
        r@ == trimmed(s@),
{
    let n = s.unicode_len();
    let mut i: usize = 0;
    while i < n && is_space_x(s.get_char(i))
        invariant
            n == s@.len(),
            i <= n,
            forall|k: int| 0 <= k < i ==> is_space(s@[k]),
        decreases n - i,
    {
        i = i + 1;
    }
    let mut j = n;
    while j > i && is_space_x(s.get_char(j - 1))
        invariant
            n == s@.len(),
            i <= j <= n,
            forall|k: int| 0 <= k < i ==> is_space(s@[k]),
            forall|k: int| j <= k < n ==> is_space(s@[k]),
        decreases j,
    {
        j = j - 1;
    }
    let t = s.substring_char(i, j);
    proof {
        lemma_trim_front_skip(s@, i as int);
        let u = s@.skip(i as int);
        assert forall|k: int| j - i <= k < u.len() implies is_space(u[k]) by {
            assert(u[k] == s@[k + i]);
        }
        if j > i {
            assert(u[j - i - 1] == s@[j - 1]);
        }
        lemma_trim_back_take(u, j - i);
        assert(u.take(j - i) =~= s@.subrange(i as int, j as int));
    }
    String::from_str(t)
}

} // verus!
