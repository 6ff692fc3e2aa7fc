//! Free-text + field-filter search grammar: whitespace tokenizer that
//! respects double-quoted literals, query parsing into bare terms and
//! `field:value` filters, and the two text-match primitives.

use vstd::prelude::*;
use vstd::string::*;
use crate::strutil::{
    contains_seq, lower_of, str_contains, str_eq, to_lower, trim_spaces, trimmed,
};

verus! {

/// One step of the tokenizer: `s` is the unread input, `current` the token
/// being accumulated, `in_quotes` whether a double quote is open, `acc` the
/// tokens finished so far.  A space outside quotes finishes the current
/// token (trimmed); a double quote toggles quoting and is dropped; any other
/// character joins the current token.
pub open spec fn tokenize_from(
    s: Seq<char>,
    current: Seq<char>,
    in_quotes: bool,
    acc: Seq<Seq<char>>,
) -> Seq<Seq<char>>
    decreases s.len(),
{
    if s.len() == 0 {
        if current.len() == 0 {
            acc
        } else {
            acc.push(trimmed(current))
        }
    } else {
        let c = s[0];
        let rest = s.subrange(1, s.len() as int);
        if c == ' ' && !in_quotes {
            if current.len() == 0 {
                tokenize_from(rest, current, in_quotes, acc)
            } else {
                tokenize_from(rest, Seq::empty(), in_quotes, acc.push(trimmed(current)))
            }
        } else if c == '"' {
            tokenize_from(rest, current, !in_quotes, acc)
        } else {
            tokenize_from(rest, current.push(c), in_quotes, acc)
        }
    }
}

/// The tokens of a whole query string.
pub open spec fn tokens_of(s: Seq<char>) -> Seq<Seq<char>> {
    tokenize_from(s, Seq::empty(), false, Seq::empty())
}

/// Tokenize the query string, handling quoted strings.
pub fn tokenize(query: &str) -> (r: Vec<String>)
    ensures
        r@.map_values(|t: String| t@) == tokens_of(query@),
{
    let qlen = query.unicode_len();
    let mut tokens: Vec<String> = Vec::new();
    let mut current = String::new();
    let mut in_quotes = false;
    let mut i: usize = 0;
    proof {
        assert(query@.skip(0) =~= query@);
        assert(tokens@.map_values(|t: String| t@) =~= Seq::<Seq<char>>::empty());
    }
    while i < qlen
        invariant
            i <= qlen,
            qlen == query@.len(),
            tokens_of(query@) == tokenize_from(
                query@.skip(i as int),
                current@,
                in_quotes,
                tokens@.map_values(|t: String| t@),
            ),
        decreases qlen - i,
    {
        let ghost rem = query@.skip(i as int);
        let ghost cur0 = current@;
        let ghost inq0 = in_quotes;
        let ghost acc0 = tokens@.map_values(|t: String| t@);
        proof {
            assert(rem[0] == query@[i as int]);
            assert(rem.subrange(1, rem.len() as int) =~= query@.skip(i + 1));
        }
        let c = query.get_char(i);
        if c == ' ' && !in_quotes {
            if current.unicode_len() != 0 {
                let finished = trim_spaces(current.as_str());
                tokens.push(finished);
                current = String::new();
                proof {
                    assert(tokens@.map_values(|t: String| t@) =~= acc0.push(trimmed(cur0)));
                    assert(tokenize_from(rem, cur0, inq0, acc0) == tokenize_from(
                        query@.skip(i + 1),
                        current@,
                        in_quotes,
                        tokens@.map_values(|t: String| t@),
                    ));
                }
            } else {
                proof {
                    assert(cur0 =~= Seq::<char>::empty());
                    assert(tokenize_from(rem, cur0, inq0, acc0) == tokenize_from(
                        query@.skip(i + 1),
                        current@,
                        in_quotes,
                        tokens@.map_values(|t: String| t@),
                    ));
                }
            }
        } else if c == '"' {
            in_quotes = !in_quotes;
            proof {
                assert(tokenize_from(rem, cur0, inq0, acc0) == tokenize_from(
                    query@.skip(i + 1),
                    current@,
                    in_quotes,
                    tokens@.map_values(|t: String| t@),
                ));
            }
        } else {
            current.append(query.substring_char(i, i + 1));
            proof {
                assert(query@.subrange(i as int, i + 1) =~= seq![query@[i as int]]);
                assert(current@ =~= cur0.push(query@[i as int]));
                assert(tokenize_from(rem, cur0, inq0, acc0) == tokenize_from(
                    query@.skip(i + 1),
                    current@,
                    in_quotes,
                    tokens@.map_values(|t: String| t@),
                ));
            }
        }
        i = i + 1;
    }
    proof {
        assert(query@.skip(i as int) =~= Seq::<char>::empty());
    }
    if current.unicode_len() != 0 {
        let finished = trim_spaces(current.as_str());
        tokens.push(finished);
        proof {
            assert(tokens@.map_values(|t: String| t@) =~= tokens@.subrange(
                0,
                tokens@.len() - 1,
            ).map_values(|t: String| t@).push(finished@));
        }
    }
    tokens
}

/// Position of the first `':'` in `t` (equal to `t.len()` when there is none).
pub open spec fn first_colon(t: Seq<char>) -> int
    decreases t.len(),
{
    if t.len() == 0 {
        0
    } else if t[0] == ':' {
        0
    } else {
        1 + first_colon(t.subrange(1, t.len() as int))
    }
}

proof fn lemma_first_colon_at(t: Seq<char>, i: int)
    requires
        0 <= i <= t.len(),
        forall|j: int| 0 <= j < i ==> t[j] != ':',
        i < t.len() ==> t[i] == ':',
    ensures
        first_colon(t) == i,
    decreases t.len(),
{
    if t.len() == 0 {
    } else if t[0] == ':' {
        assert(i == 0);
    } else {
        let rest = t.subrange(1, t.len() as int);
        lemma_first_colon_at(rest, i - 1);
    }
}

/// A token with a colon is a field filter: field part before the first
/// colon (lowercased), value part after it.  A token without one is a term.
pub open spec fn has_colon(t: Seq<char>) -> bool {
    first_colon(t) < t.len()
}

pub open spec fn field_part(t: Seq<char>) -> Seq<char> {
    lower_of(t.subrange(0, first_colon(t)))
}

pub open spec fn value_part(t: Seq<char>) -> Seq<char> {
    t.subrange(first_colon(t) + 1, t.len() as int)
}

/// Bare terms of a token list, in order.
pub open spec fn terms_of(tokens: Seq<Seq<char>>) -> Seq<Seq<char>>
    decreases tokens.len(),
{
    if tokens.len() == 0 {
        Seq::empty()
    } else {
        let init = terms_of(tokens.drop_last());
        if has_colon(tokens.last()) {
            init
        } else {
            init.push(tokens.last())
        }
    }
}

/// Field filters of a token list, in order.
pub open spec fn filters_of(tokens: Seq<Seq<char>>) -> Seq<(Seq<char>, Seq<char>)>
    decreases tokens.len(),
{
    if tokens.len() == 0 {
        Seq::empty()
    } else {
        let init = filters_of(tokens.drop_last());
        if has_colon(tokens.last()) {
            init.push((field_part(tokens.last()), value_part(tokens.last())))
        } else {
            init
        }
    }
}

/// A parsed query: free-text terms plus `field:value` filters.
#[derive(Clone, Debug)]
pub struct Query {
    pub terms: Vec<String>,
    pub field_filters: Vec<(String, String)>,
}

impl Query {
    pub open spec fn terms_view(self) -> Seq<Seq<char>> {
        self.terms@.map_values(|t: String| t@)
    }

    pub open spec fn filters_view(self) -> Seq<(Seq<char>, Seq<char>)> {
        self.field_filters@.map_values(|p: (String, String)| (p.0@, p.1@))
    }

    /// Parse a query string: tokenize, then split each token on its first
    /// colon into a (lowercased) field and a value, or keep it as a term.
    pub fn new(query: &str) -> (r: Query)
        ensures
            r.terms_view() == terms_of(tokens_of(query@)),
            r.filters_view() == filters_of(tokens_of(query@)),
    {
        let tokens = tokenize(query);
        let mut terms: Vec<String> = Vec::new();
        let mut field_filters: Vec<(String, String)> = Vec::new();
        let n = tokens.len();
        let ghost toks = tokens@.map_values(|t: String| t@);
        let mut k: usize = 0;
        while k < n
            invariant
                k <= n,
                n == tokens@.len(),
                toks == tokens@.map_values(|t: String| t@),
                terms@.map_values(|t: String| t@) == terms_of(toks.subrange(0, k as int)),
                field_filters@.map_values(|p: (String, String)| (p.0@, p.1@)) == filters_of(
                    toks.subrange(0, k as int),
                ),
            decreases n - k,
        {
            let tok = &tokens[k];
            let tlen = tok.as_str().unicode_len();
            let mut c: usize = 0;
            while c < tlen && tok.as_str().get_char(c) != ':'
                invariant
                    c <= tlen,
                    tlen == tok@.len(),
                    forall|j: int| 0 <= j < c ==> tok@[j] != ':',
                decreases tlen - c,
            {
                c = c + 1;
            }
            proof {
                lemma_first_colon_at(tok@, c as int);
                assert(toks.subrange(0, k + 1).drop_last() =~= toks.subrange(0, k as int));
                assert(toks.subrange(0, k + 1).last() == tok@);
            }
            if c < tlen {
                let field = to_lower(tok.as_str().substring_char(0, c));
                let value = String::from_str(tok.as_str().substring_char(c + 1, tlen));
                field_filters.push((field, value));
                proof {
                    assert(field_filters@.map_values(|p: (String, String)| (p.0@, p.1@))
                        =~= field_filters@.subrange(0, field_filters@.len() - 1).map_values(
                        |p: (String, String)| (p.0@, p.1@),
                    ).push((field@, value@)));
                }
            } else {
                let term = String::from_str(tok.as_str());
                terms.push(term);
                proof {
                    assert(terms@.map_values(|t: String| t@) =~= terms@.subrange(
                        0,
                        terms@.len() - 1,
                    ).map_values(|t: String| t@).push(term@));
                }
            }
            k = k + 1;
        }
        proof {
            assert(toks.subrange(0, n as int) =~= toks);
        }
        Query { terms, field_filters }
    }
}

/// A value of `"*"` matches anything; otherwise the query must occur in the
/// text, case-insensitively.
pub open spec fn spec_text_matches(text: Seq<char>, query: Seq<char>) -> bool {
    query == "*"@ || contains_seq(lower_of(text), lower_of(query))
}

/// A value of `"*"` matches anything; otherwise the text must equal the
/// query exactly.
pub open spec fn spec_text_exact_matches(text: Seq<char>, query: Seq<char>) -> bool {
    query == "*"@ || text == query
}

/// Case-insensitive substring match on a present text.
pub open spec fn spec_opt_text_matches(text: Option<Seq<char>>, query: Seq<char>) -> bool {
    query == "*"@ || (text is Some && contains_seq(lower_of(text->0), lower_of(query)))
}

/// Case-sensitive exact match on a present text.
pub open spec fn spec_opt_text_exact_matches(text: Option<Seq<char>>, query: Seq<char>) -> bool {
    query == "*"@ || (text is Some && text->0 == query)
}

pub fn text_matches(text: &str, query: &str) -> (r: bool)
    ensures
        r == spec_text_matches(text@, query@),
{
    if str_eq(query, "*") {
        true
    } else {
        let lt = to_lower(text);
        let lq = to_lower(query);
        str_contains(lt.as_str(), lq.as_str())
    }
}

pub fn text_exact_matches(text: &str, query: &str) -> (r: bool)
    ensures
        r == spec_text_exact_matches(text@, query@),
{
    str_eq(query, "*") || str_eq(text, query)
}

pub open spec fn opt_view(text: Option<String>) -> Option<Seq<char>> {
    match text {
        Some(t) => Some(t@),
        None => None,
    }
}

pub fn opt_text_matches(text: Option<String>, query: &str) -> (r: bool)
    ensures
        r == spec_opt_text_matches(opt_view(text), query@),
{
    if str_eq(query, "*") {
        true
    } else {
        match text {
            Some(t) => text_matches(t.as_str(), query) && !str_eq(query, "*"),
            None => false,
        }
    }
}

pub fn opt_text_exact_matches(text: Option<String>, query: &str) -> (r: bool)
    ensures
        r == spec_opt_text_exact_matches(opt_view(text), query@),
{
    if str_eq(query, "*") {
        true
    } else {
        match text {
            Some(t) => str_eq(t.as_str(), query),
            None => false,
        }
    }
}

} // verus!
