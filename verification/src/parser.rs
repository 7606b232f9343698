use vstd::prelude::*;

use crate::text::{find_char, find_char_str, is_space, lemma_find_char, space_char};
use crate::tokens::instructions::{a_value, c_parse, AInstruction, CInstruction, InstrModel, Instruction};
use crate::tokens::label::Label;
use crate::tokens::token::{toks_view, valid_symbol, Token, TokenModel};

verus! {

/// Index of the first `//` in `l`, or -1 if there is none.
pub open spec fn comment_start(l: Seq<char>) -> int
    decreases l.len(),
{
    if l.len() < 2 {
        -1
    } else if l[0] == '/' && l[1] == '/' {
        0
    } else {
        let r = comment_start(l.drop_first());
        if r == -1 {
            -1
        } else {
            r + 1
        }
    }
}

/// `comment_start` returns -1 exactly when `//` does not occur, and
/// otherwise the smallest index where it starts.
proof fn lemma_comment_start(l: Seq<char>)
    ensures
        comment_start(l) == -1 ==> forall|i: int|
            0 <= i < l.len() - 1 ==> !(#[trigger] l[i] == '/' && l[i + 1] == '/'),
        comment_start(l) != -1 ==> 0 <= comment_start(l) <= l.len() - 2 && l[comment_start(l)]
            == '/' && l[comment_start(l) + 1] == '/' && (forall|i: int|
            0 <= i < comment_start(l) ==> !(#[trigger] l[i] == '/' && l[i + 1] == '/')),
    decreases l.len(),
{
    if l.len() < 2 {
    } else if l[0] == '/' && l[1] == '/' {
    } else {
        lemma_comment_start(l.drop_first());
        assert(forall|i: int| 1 <= i < l.len() ==> l[i] == l.drop_first()[i - 1]);
    }
}

/// Everything before the first `//`.
pub open spec fn strip_comment(l: Seq<char>) -> Seq<char> {
    let i = comment_start(l);
    if 0 <= i <= l.len() {
        l.take(i)
    } else {
        l
    }
}

/// `l` without its leading whitespace.
pub open spec fn trim_front(l: Seq<char>) -> Seq<char>
    decreases l.len(),
{
    if l.len() > 0 && is_space(l[0]) {
        trim_front(l.drop_first())
    } else {
        l
    }
}

/// `l` without its trailing whitespace.
pub open spec fn trim_end(l: Seq<char>) -> Seq<char>
    decreases l.len(),
{
    if l.len() > 0 && is_space(l.last()) {
        trim_end(l.drop_last())
    } else {
        l
    }
}

/// A source line reduced to its meaning: the comment dropped, the
/// surrounding whitespace trimmed.
pub open spec fn clean(l: Seq<char>) -> Seq<char> {
    trim_end(trim_front(strip_comment(l)))
}

/// The lines of `s`, split at every newline.
pub open spec fn lines_of(s: Seq<char>) -> Seq<Seq<char>>
    decreases s.len(),
{
    let i = find_char(s, '\n');
    if 0 <= i < s.len() {
        seq![s.take(i)] + lines_of(s.skip(i + 1))
    } else {
        seq![s]
    }
}

/// What one cleaned, non-empty line denotes, if anything: a label
/// declaration, an address-instruction, or a compute-instruction.
pub open spec fn parse_line_spec(l: Seq<char>) -> Option<TokenModel> {
    if l.len() > 0 && l[0] == '(' && l[l.len() - 1] == ')' {
        let inner = l.subrange(1, l.len() - 1);
        if valid_symbol(inner) {
            Some(TokenModel::Label(inner))
        } else {
            None
        }
    } else if l.len() > 0 && l[0] == '@' {
        match a_value(l.skip(1)) {
            Some(v) => Some(TokenModel::Instruction(InstrModel::A(v))),
            None => None,
        }
    } else {
        match c_parse(l) {
            Some(i) => Some(TokenModel::Instruction(i)),
            None => None,
        }
    }
}

/// The tokens of a line sequence: lines that clean away to nothing are
/// skipped, and one bad line fails the whole parse.
pub open spec fn parse_lines(ls: Seq<Seq<char>>) -> Option<Seq<TokenModel>>
    decreases ls.len(),
{
    if ls.len() == 0 {
        Some(Seq::empty())
    } else {
        let c = clean(ls[0]);
        let rest = parse_lines(ls.drop_first());
        if c.len() == 0 {
            rest
        } else {
            match (parse_line_spec(c), rest) {
                (Some(t), Some(ts)) => Some(seq![t] + ts),
                _ => None,
            }
        }
    }
}

/// What a whole source text parses to, if anything.
pub open spec fn parse_spec(s: Seq<char>) -> Option<Seq<TokenModel>> {
    parse_lines(lines_of(s))
}

proof fn lemma_lines_of_len(s: Seq<char>)
    ensures
        lines_of(s).len() <= s.len() + 1,
    decreases s.len(),
{
    let i = find_char(s, '\n');
    if 0 <= i < s.len() {
        lemma_lines_of_len(s.skip(i + 1));
    }
}

/// First position of a `//` comment opener in `s`.
fn find_comment(s: &str) -> (r: Option<usize>)
    ensures
        r matches Some(i) ==> comment_start(s@) == i as int,
        r is None ==> comment_start(s@) == -1,
{
    let n = s.unicode_len();
    if n < 2 {
        return None;
    }
    let mut i: usize = 0;
    while i < n - 1
        invariant
            n == s@.len(),
            2 <= n,
            i <= n,
            forall|j: int| 0 <= j < i ==> !(#[trigger] s@[j] == '/' && s@[j + 1] == '/'),
        decreases n - i,
    {
        if s.get_char(i) == '/' && s.get_char(i + 1) == '/' {
            proof {
                lemma_comment_start(s@);
            }
            return Some(i);
        }
        i = i + 1;
    }
    proof {
        lemma_comment_start(s@);
    }
    None
}

/// Strip the line comment, if any, and the surrounding whitespace.
fn remove_comments<'a>(line: &'a str) -> (r: &'a str)
    ensures
        r@ == clean(line@),
{
    let stripped: &str = match find_comment(line) {
        Some(i) => {
            proof {
                lemma_comment_start(line@);
            }
            line.substring_char(0, i)
        },
        None => line,
    };
    proof {
        assert(stripped@ =~= strip_comment(line@));
    }
    let m = stripped.unicode_len();
    let mut a: usize = 0;
    proof {
        assert(stripped@.skip(0) =~= stripped@);
    }
    while a < m && space_char(stripped.get_char(a))
        invariant
            a <= m,
            m == stripped@.len(),
            trim_front(stripped@) == trim_front(stripped@.skip(a as int)),
        decreases m - a,
    {
        proof {
            assert(stripped@.skip(a as int).drop_first() =~= stripped@.skip(a as int + 1));
        }
        a = a + 1;
    }
    proof {
        assert(trim_front(stripped@) == stripped@.skip(a as int));
        assert(stripped@.subrange(a as int, m as int) =~= stripped@.skip(a as int));
    }
    let mut b: usize = m;
    while b > a && space_char(stripped.get_char(b - 1))
        invariant
            a <= b <= m,
            m == stripped@.len(),
            trim_end(stripped@.skip(a as int)) == trim_end(
                stripped@.subrange(a as int, b as int),
            ),
        decreases b,
    {
        proof {
            assert(stripped@.subrange(a as int, b as int).drop_last() =~= stripped@.subrange(
                a as int,
                b as int - 1,
            ));
        }
        b = b - 1;
    }
    let r = stripped.substring_char(a, b);
    proof {
        assert(trim_end(stripped@.subrange(a as int, b as int)) == stripped@.subrange(
            a as int,
            b as int,
        ));
        assert(r@ =~= clean(line@));
    }
    r
}

/// Classify one cleaned line by its leading character and parse it.
fn parse_line(line: &str) -> (r: Option<Token>)
    ensures
        r is Some <==> parse_line_spec(line@) is Some,
        r matches Some(t) ==> t@ == parse_line_spec(line@).unwrap(),
{
    let n = line.unicode_len();
    if n > 0 && line.get_char(0) == '(' && line.get_char(n - 1) == ')' {
        assert(n >= 2);
        let inner = line.substring_char(1, n - 1);
        proof {
            assert(inner@ =~= line@.subrange(1, n as int - 1));
        }
        match Label::parse(inner) {
            Some(label) => Some(Token::Label(label)),
            None => None,
        }
    } else if n > 0 && line.get_char(0) == '@' {
        let rest = line.substring_char(1, n);
        proof {
            assert(rest@ =~= line@.skip(1));
        }
        match AInstruction::parse(rest) {
            Some(ainstr) => Some(Token::Instruction(Instruction::A(ainstr))),
            None => None,
        }
    } else {
        match CInstruction::parse(line) {
            Some(cinstr) => Some(Token::Instruction(Instruction::C(cinstr))),
            None => None,
        }
    }
}

/// Parse a whole source text into its token sequence; a single bad line
/// fails the parse.
pub fn parse(source: String) -> (r: Option<Vec<Token>>)
    ensures
        r is Some <==> parse_spec(source@) is Some,
        r matches Some(v) ==> Some(toks_view(v@)) == parse_spec(source@),
        r matches Some(v) ==> v@.len() <= source@.len() + 1,
{
    let mut tokens: Vec<Token> = Vec::new();
    let mut rest: &str = source.as_str();
    proof {
        assert(toks_view(tokens@) =~= Seq::<TokenModel>::empty());
        lemma_lines_of_len(source@);
    }
    loop
        invariant
            (match parse_lines(lines_of(rest@)) {
                Some(ts) => parse_spec(source@) == Some(toks_view(tokens@) + ts),
                None => parse_spec(source@) is None,
            }),
            tokens@.len() + lines_of(rest@).len() <= source@.len() + 1,
        decreases rest@.len(),
    {
        let ghost rest_before = rest@;
        let ghost toks_before = tokens@;
        let n = rest.unicode_len();
        match find_char_str(rest, '\n') {
            Some(i) => {
                proof {
                    lemma_find_char(rest_before, '\n');
                }
                let line = rest.substring_char(0, i);
                rest = rest.substring_char(i + 1, n);
                proof {
                    assert(line@ =~= rest_before.take(i as int));
                    assert(rest@ =~= rest_before.skip(i as int + 1));
                    assert(lines_of(rest_before) == seq![line@] + lines_of(rest@));
                    assert((seq![line@] + lines_of(rest@))[0] == line@);
                    assert((seq![line@] + lines_of(rest@)).drop_first() =~= lines_of(rest@));
                }
                let cleaned = remove_comments(line);
                if cleaned.unicode_len() > 0 {
                    match parse_line(cleaned) {
                        Some(t) => {
                            let ghost tv = t@;
                            tokens.push(t);
                            proof {
                                assert(toks_view(tokens@) =~= toks_view(toks_before) + seq![tv]);
                                match parse_lines(lines_of(rest@)) {
                                    Some(ts) => {
                                        assert(toks_view(toks_before) + (seq![tv] + ts)
                                            =~= toks_view(tokens@) + ts);
                                    },
                                    None => {},
                                }
                            }
                        },
                        None => {
                            return None;
                        },
                    }
                }
            },
            None => {
                proof {
                    lemma_find_char(rest_before, '\n');
                    assert(lines_of(rest_before) == seq![rest_before]);
                    assert(seq![rest_before][0] == rest_before);
                    assert(seq![rest_before].drop_first() =~= Seq::<Seq<char>>::empty());
                    assert(parse_lines(Seq::<Seq<char>>::empty()) == Some(
                        Seq::<TokenModel>::empty(),
                    ));
                }
                let cleaned = remove_comments(rest);
                if cleaned.unicode_len() > 0 {
                    match parse_line(cleaned) {
                        Some(t) => {
                            let ghost tv = t@;
                            tokens.push(t);
                            proof {
                                assert(toks_view(tokens@) =~= toks_view(toks_before) + seq![tv]);
                                assert(toks_view(toks_before) + (seq![tv]
                                    + Seq::<TokenModel>::empty()) =~= toks_view(tokens@));
                            }
                        },
                        None => {
                            return None;
                        },
                    }
                } else {
                    proof {
                        assert(toks_view(tokens@) + Seq::<TokenModel>::empty() =~= toks_view(
                            tokens@,
                        ));
                    }
                }
                return Some(tokens);
            },
        }
    }
}

} // verus!
