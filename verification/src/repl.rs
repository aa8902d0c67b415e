//! One turn of the read-eval-print loop: a line of source text goes in, and
//! the lines to print come out.

use crate::builtins::lines;
use crate::env::{evaluate, Env, Scope};
use crate::message::{eval_message, parse_message};
use crate::parser::{is_comment_token, lemma_reading_advances, read_form, Closer};
use crate::semantics::eval;
use crate::text::begins_with;
use crate::tokenizer::{tokenize, Tokenizer};
use crate::types::{text_of, Sexp};
use vstd::prelude::*;
use vstd::string::StringExecFns;

verus! {

/// How an error is shown: its message behind `[ERROR] `.
pub open spec fn error_line(message: Seq<char>) -> Seq<char> {
    "[ERROR] "@ + message
}

/// What is left after the expressions of a line were read, evaluated and
/// printed: the scopes and the lines printed.
pub ghost struct Turn {
    pub env: Seq<Scope>,
    pub out: Seq<Seq<char>>,
}

/// Reading, evaluating and printing the expressions that the tokens hold
/// from `pos` on, one after the other. The text of each value is printed as a
/// line of its own behind what evaluation printed. An expression that has no
/// value gives an error line, and the next expression is read. Comments are
/// passed over. Where no expression can be read, an error line is printed
/// and the rest of the tokens is left unread.
pub open spec fn rep_from(
    ts: Seq<Seq<char>>,
    pos: int,
    env: Seq<Scope>,
    out: Seq<Seq<char>>,
) -> Turn
    decreases ts.len() - pos,
{
    if pos < 0 || pos >= ts.len() {
        Turn { env, out }
    } else if is_comment_token(ts[pos]) {
        rep_from(ts, pos + 1, env, out)
    } else {
        let reading = read_form(ts, pos);
        match reading.result {
            Err(fault) => Turn { env, out: out.push(error_line(parse_message(fault))) },
            Ok(f) => {
                let o = eval(f, env, out);
                let line = match o.result {
                    Ok(value) => text_of(value),
                    Err(fault) => error_line(eval_message(fault)),
                };
                if pos < reading.next <= ts.len() {
                    rep_from(ts, reading.next, o.env, o.out.push(line))
                } else {
                    Turn { env: o.env, out: o.out.push(line) }
                }
            },
        }
    }
}

/// The line that shows an error.
fn error_text(message: String) -> (r: String)
    ensures
        r@ == error_line(message@),
{
    let mut line = String::from_str("[ERROR] ");
    line.append(message.as_str());
    line
}

/// Reads the expressions of `input`, evaluates each in `env`, and adds to
/// `out` what there is to print, one string for each line: what evaluation
/// prints, the text of each value, and a line for each error.
pub fn rep(input: String, env: &mut Env, out: &mut Vec<String>)
    ensures
        final(env)@ == rep_from(tokenize(input@), 0, old(env)@, lines(old(out)@)).env,
        lines(final(out)@) == rep_from(tokenize(input@), 0, old(env)@, lines(old(out)@)).out,
{
    let mut tokenizer = Tokenizer::new(input);
    let ghost ts = tokenizer@.tokens;
    let ghost whole = rep_from(ts, 0, env@, lines(out@));
    loop
        invariant_except_break
            tokenizer@.tokens == ts,
            whole == rep_from(ts, tokenizer@.pos as int, env@, lines(out@)),
        ensures
            whole.env == env@,
            whole.out == lines(out@),
        decreases ts.len() - tokenizer@.pos,
    {
        let ghost pos = tokenizer@.pos as int;
        let (at_end, at_comment) = match tokenizer.peek() {
            None => (true, false),
            Some(t) => (false, begins_with(t, ';')),
        };
        if at_end {
            break;
        }
        if at_comment {
            let _ = tokenizer.next();
        } else {
            proof {
                lemma_reading_advances(ts, pos, Closer::Paren);
            }
            match Sexp::read_from(&mut tokenizer) {
                Err(e) => {
                    let ghost before = lines(out@);
                    out.push(error_text(e.message()));
                    assert(lines(out@) =~= before.push(error_line(parse_message(e@))));
                    break;
                },
                Ok(ast) => {
                    let line = match evaluate(ast, env, out) {
                        Ok(value) => value.to_text(),
                        Err(e) => error_text(e.message()),
                    };
                    let ghost before = lines(out@);
                    out.push(line);
                    assert(lines(out@) =~= before.push(line@));
                },
            }
        }
    }
}

} // verus!
