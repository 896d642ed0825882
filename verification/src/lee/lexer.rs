//! The lexer of the filter language: the query text becomes a token
//! stream by maximal-munch scanning.

use vstd::prelude::*;
use crate::lee::condition::{Dec, Operator, Value, value_wf};
use crate::lee::error::ParseError;
use crate::lee::string_reader::StringReader;
use crate::textnum::is_dec_digit;

verus! {

/// One token of the filter language.
#[derive(Debug)]
pub enum Token {
    Ident(String),
    Op(Operator),
    Lit(Value),
    LParen,
    RParen,
    And,
    Or,
}

/// Well-formedness of a token: any literal it carries is comparable.
pub open spec fn token_wf(t: Token) -> bool {
    match t {
        Token::Lit(v) => value_wf(v),
        _ => true,
    }
}

/// Whether a character can appear in an identifier.
pub open spec fn spec_is_ident_char(c: char) -> bool {
    ('a' <= c && c <= 'z') || ('A' <= c && c <= 'Z') || c == '_' || is_dec_digit(c)
}

fn is_ident_start(c: char) -> (r: bool)
    ensures
        r == (('a' <= c && c <= 'z') || ('A' <= c && c <= 'Z') || c == '_'),
{
    ('a' <= c && c <= 'z') || ('A' <= c && c <= 'Z') || c == '_'
}

fn is_ident_char(c: char) -> (r: bool)
    ensures
        r == spec_is_ident_char(c),
{
    ('a' <= c && c <= 'z') || ('A' <= c && c <= 'Z') || c == '_'
        || (c >= '0' && c <= '9')
}

fn parse_err(reader: &StringReader, msg: &str) -> (r: ParseError)
    requires
        reader.inv(),
    ensures
        r.msg@ == msg@,
{
    let (_line, pos) = reader.position();
    ParseError { pos, msg: msg.to_owned() }
}

/// Scan a number: digits, optionally a dot and more digits, with an
/// optional leading minus already consumed by the caller.
fn scan_number(reader: &mut StringReader, negative: bool) -> (r: Result<Value, ParseError>)
    requires
        old(reader).inv(),
    ensures
        final(reader).inv(),
        r matches Ok(v) ==> value_wf(v),
        final(reader).text() == old(reader).text(),
        final(reader).cursor() >= old(reader).cursor(),
        r matches Ok(v2) ==> final(reader).cursor() > old(reader).cursor(),
{
    let ghost t0 = reader.text();
    let ghost c0 = reader.cursor();
    let mut int_part: u64 = 0;
    let mut digits: u32 = 0;
    loop
        invariant
            reader.inv(),
            t0 == old(reader).text(),
            c0 == old(reader).cursor(),
            reader.text() == t0,
            reader.cursor() >= c0,
            digits == 0 ==> reader.cursor() == c0,
            digits > 0 ==> reader.cursor() > c0,
            int_part <= 999_999_999_999_999_999,
        ensures
            reader.inv(),
            t0 == old(reader).text(),
            c0 == old(reader).cursor(),
            reader.text() == t0,
            reader.cursor() >= c0,
            digits == 0 ==> reader.cursor() == c0,
            digits > 0 ==> reader.cursor() > c0,
        decreases reader.text().len() - reader.cursor(),
    {
        proof {
            reader.lemma_in_range();
        }
        match reader.peek() {
            Option::Some(c) => {
                if c >= '0' && c <= '9' {
                    if int_part > 99_999_999_999_999_999 {
                        return Err(parse_err(reader, "number too long"));
                    }
                    int_part = int_part * 10 + ((c as u32 - 48) as u64);
                    digits = if digits < u32::MAX {
                        digits + 1
                    } else {
                        digits
                    };
                    reader.advance();
                } else {
                    break;
                }
            },
            Option::None => {
                break;
            },
        }
    }
    if digits == 0 {
        return Err(parse_err(reader, "expected a digit"));
    }
    let is_float: bool = match reader.peek() {
        Option::Some(c) => c == '.',
        Option::None => false,
    };
    if !is_float {
        let v: i64 = int_part as i64;
        let v: i64 = if negative {
            -v
        } else {
            v
        };
        return Ok(Value::Integer(v));
    }
    reader.advance();
    let mut frac: u64 = 0;
    let mut scale: u32 = 0;
    loop
        invariant
            reader.inv(),
            t0 == old(reader).text(),
            c0 == old(reader).cursor(),
            reader.text() == t0,
            reader.cursor() > c0,
            scale <= 9,
            (frac as int) < crate::textnum::pow10(scale as nat),
        ensures
            reader.inv(),
            t0 == old(reader).text(),
            c0 == old(reader).cursor(),
            reader.text() == t0,
            reader.cursor() > c0,
            scale <= 9,
            (frac as int) < crate::textnum::pow10(scale as nat),
        decreases reader.text().len() - reader.cursor(),
    {
        proof {
            reader.lemma_in_range();
        }
        match reader.peek() {
            Option::Some(c) => {
                if c >= '0' && c <= '9' {
                    if scale >= 9 {
                        return Err(parse_err(reader, "number too long"));
                    }
                    proof {
                        crate::textnum::lemma_pow10_mono_le(scale as nat, 9);
                        crate::textnum::lemma_pow10_bounds(9);
                        assert(crate::textnum::pow10((scale + 1) as nat)
                            == 10 * crate::textnum::pow10(scale as nat));
                    }
                    frac = frac * 10 + ((c as u32 - 48) as u64);
                    scale = scale + 1;
                    reader.advance();
                } else {
                    break;
                }
            },
            Option::None => {
                break;
            },
        }
    }
    if scale == 0 {
        return Err(parse_err(reader, "expected a digit after the decimal point"));
    }
    let p: i64 = crate::textnum::pow10_i64(scale);
    proof {
        crate::textnum::lemma_pow10_bounds(scale as nat);
        assert(0 <= (int_part as int) * (p as int)
            <= 1_000_000_000_000_000_000_000_000_000_000_000_000) by (nonlinear_arith)
            requires
                0 <= int_part as int <= 999_999_999_999_999_999,
                0 <= p as int <= 1_000_000_000_000_000_000,
        ;
    }
    let wide: i128 = (int_part as i128) * (p as i128) + (frac as i128);
    if wide > i64::MAX as i128 {
        return Err(parse_err(reader, "number too long"));
    }
    let mant_mag: i64 = wide as i64;
    let mant: i64 = if negative {
        -mant_mag
    } else {
        mant_mag
    };
    Ok(Value::Float(Dec { mant, scale }))
}

/// Scan a whole query into tokens.
pub fn tokenize(src: &str) -> (r: Result<Vec<Token>, ParseError>)
    ensures
        r matches Ok(ts) ==> forall|i: int| 0 <= i < ts@.len() ==> token_wf(#[trigger] ts@[i]),
{
    let mut reader = StringReader::new(src);
    let mut out: Vec<Token> = Vec::new();
    loop
        invariant
            reader.inv(),
            forall|i: int| 0 <= i < out@.len() ==> token_wf(#[trigger] out@[i]),
        decreases reader.text().len() - reader.cursor(),
    {
        let c: char = match reader.peek() {
            Option::Some(c) => c,
            Option::None => {
                return Ok(out);
            },
        };
        if c == ' ' || c == '\t' || c == '\n' || c == '\r' {
            reader.advance();
        } else if is_ident_start(c) {
            let ghost t0 = reader.text();
            let ghost c0 = reader.cursor();
            let mut ident = String::new();
            loop
                invariant
                    reader.inv(),
                    reader.text() == t0,
                    reader.cursor() >= c0,
                    reader.cursor() == c0 ==> reader.spec_peek() == Some(c)
                        && spec_is_ident_char(c),
                ensures
                    reader.inv(),
                    reader.text() == t0,
                    reader.cursor() > c0,
                decreases reader.text().len() - reader.cursor(),
            {
                proof {
                    reader.lemma_in_range();
                }
                match reader.peek() {
                    Option::Some(c2) => {
                        if is_ident_char(c2) {
                            push_char(&mut ident, c2);
                            reader.advance();
                        } else {
                            break;
                        }
                    },
                    Option::None => {
                        break;
                    },
                }
            }
            out.push(Token::Ident(ident));
        } else if (c >= '0' && c <= '9') || c == '-' {
            let negative: bool = c == '-';
            if negative {
                reader.advance();
            }
            match scan_number(&mut reader, negative) {
                Ok(v) => {
                    out.push(Token::Lit(v));
                },
                Err(e) => {
                    return Err(e);
                },
            }
        } else if c == '"' || c == '\'' {
            let quote = c;
            let ghost t0 = reader.text();
            let ghost c0 = reader.cursor();
            reader.advance();
            let mut text = String::new();
            loop
                invariant
                    reader.inv(),
                    reader.text() == t0,
                    reader.cursor() > c0,
                ensures
                    reader.inv(),
                    reader.text() == t0,
                    reader.cursor() > c0,
                decreases reader.text().len() - reader.cursor(),
            {
                proof {
                    reader.lemma_in_range();
                }
                match reader.next() {
                    Option::Some(c2) => {
                        if c2 == quote {
                            break;
                        }
                        push_char(&mut text, c2);
                    },
                    Option::None => {
                        return Err(parse_err(&reader, "unterminated string"));
                    },
                }
            }
            out.push(Token::Lit(Value::String(text)));
        } else if c == '(' {
            reader.advance();
            out.push(Token::LParen);
        } else if c == ')' {
            reader.advance();
            out.push(Token::RParen);
        } else if c == '=' {
            reader.advance();
            match reader.next() {
                Option::Some('~') => {
                    out.push(Token::Op(Operator::Matches));
                },
                Option::Some('=') => {
                    out.push(Token::Op(Operator::Equals));
                },
                _ => {
                    return Err(parse_err(&reader, "expected =~ or =="));
                },
            }
        } else if c == '!' {
            reader.advance();
            match reader.next() {
                Option::Some('~') => {
                    out.push(Token::Op(Operator::NotMatches));
                },
                Option::Some('=') => {
                    out.push(Token::Op(Operator::NotEquals));
                },
                _ => {
                    return Err(parse_err(&reader, "expected !~ or !="));
                },
            }
        } else if c == '<' {
            reader.advance();
            let le: bool = match reader.peek() {
                Option::Some('=') => true,
                _ => false,
            };
            if le {
                reader.advance();
                out.push(Token::Op(Operator::LessOrEqual));
            } else {
                out.push(Token::Op(Operator::Less));
            }
        } else if c == '>' {
            reader.advance();
            let ge: bool = match reader.peek() {
                Option::Some('=') => true,
                _ => false,
            };
            if ge {
                reader.advance();
                out.push(Token::Op(Operator::GreaterOrEqual));
            } else {
                out.push(Token::Op(Operator::Greater));
            }
        } else if c == '&' {
            reader.advance();
            match reader.next() {
                Option::Some('&') => {
                    out.push(Token::And);
                },
                _ => {
                    return Err(parse_err(&reader, "expected &&"));
                },
            }
        } else if c == '|' {
            reader.advance();
            match reader.next() {
                Option::Some('|') => {
                    out.push(Token::Or);
                },
                _ => {
                    return Err(parse_err(&reader, "expected ||"));
                },
            }
        } else {
            return Err(parse_err(&reader, "unexpected character"));
        }
        proof {
            reader.lemma_in_range();
        }
    }
}

/// Relies on `String::push` of std: the character is appended.
#[verifier::external_body]
fn push_char(s: &mut String, c: char)
    ensures
        final(s)@ == old(s)@.push(c),
{
    s.push(c);
}

} // verus!
