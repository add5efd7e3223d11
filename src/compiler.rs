//! The compiler stage as it stands: it scans the whole source and lists its
//! tokens, one line each, without emitting bytecode yet.

use vstd::prelude::*;
use crate::scanner::{lemma_scan_bounds, scan_spec, Scanner, TOKEN, TokenError};
use crate::text::{chars_of, decimal, pad_left, push_all, push_number, string_of};
use crate::vm::InterpretError;

verus! {

/// The listing line of a token of kind `kind` with lexeme `lexeme`, ending on
/// `line`, when the token before ended on `prev_line`: the line number, or a
/// continuation marker when it repeats.
pub open spec fn listing_line(prev_line: int, kind: TOKEN, line: int, lexeme: Seq<char>) -> Seq<char> {
    (if line != prev_line {
        pad_left(decimal(line as nat), 4, ' ') + " "@
    } else {
        "   | "@
    }) + kind.spec_name() + " '"@ + lexeme + "'\n"@
}

/// `pre` put before the listing `r`, when `r` is one.
pub open spec fn prepend(pre: Seq<char>, r: Result<Seq<char>, (Seq<char>, int)>) -> Result<Seq<char>, (Seq<char>, int)> {
    match r {
        Ok(t) => Ok(pre + t),
        Err(e) => Err(e),
    }
}

/// The listing of the tokens of `s` from `cur` on `line`, through `EOF`; or
/// the message and line of the first scanning error.
pub open spec fn listing(s: Seq<char>, cur: int, line: int, prev_line: int) -> Result<Seq<char>, (Seq<char>, int)>
    decreases s.len() - cur,
    via listing_decreases
{
    if cur < 0 || cur > s.len() {
        Ok(Seq::empty())
    } else {
        let st = scan_spec(s, cur, line);
        match st.kind {
            Err(m) => Err((m, st.report_line)),
            Ok(k) => {
                let text = listing_line(prev_line, k, st.line, s.subrange(st.start, st.end));
                if k == TOKEN::EOF {
                    Ok(text)
                } else {
                    prepend(text, listing(s, st.end, st.line, st.line))
                }
            },
        }
    }
}

#[via_fn]
proof fn listing_decreases(s: Seq<char>, cur: int, line: int, prev_line: int) {
    if 0 <= cur <= s.len() {
        lemma_scan_bounds(s, cur, line);
    }
}

/// Scans all of `source` and lists its tokens; fails with the first
/// scanning error.
#[verifier::rlimit(40)]
pub fn compile(source: String) -> (r: Result<String, TokenError>)
    requires
        source@.len() < usize::MAX,
    ensures
        match listing(source@, 0, 1, 0) {
            Ok(t) => r matches Ok(x) && x@ == t,
            Err((m, l)) => r matches Err(e) && e.message@ == m && e.line == l,
        },
{
    let ghost s = source@;
    let mut scanner = Scanner::new(source);
    let mut out: Vec<char> = Vec::new();
    let mut prev: usize = 0;
    loop
        invariant
            scanner.wf(),
            scanner.spec_source() == s,
            s == source@,
            0 <= scanner.spec_current() <= s.len(),
            listing(s, 0, 1, 0) == prepend(
                out@,
                listing(s, scanner.spec_current(), scanner.spec_line(), prev as int),
            ),
        decreases s.len() - scanner.spec_current(),
    {
        let ghost cur = scanner.spec_current();
        let ghost line = scanner.spec_line();
        proof {
            lemma_scan_bounds(s, cur, line);
        }
        let token = match scanner.scan_token() {
            Ok(t) => t,
            Err(e) => {
                return Err(e);
            },
        };
        let ghost st = scan_spec(s, cur, line);
        assert(st.kind == Ok::<TOKEN, Seq<char>>(token.ty));
        assert(token.start == st.start && token.start + token.length == st.end && token.line == st.line);
        let ghost before = out@;
        let ghost prev0 = prev as int;
        if token.line != prev {
            push_number(&mut out, token.line, 4, ' ');
            push_all(&mut out, &chars_of(" "));
            prev = token.line;
        } else {
            push_all(&mut out, &chars_of("   | "));
        }
        push_all(&mut out, &chars_of(token.ty.name()));
        push_all(&mut out, &chars_of(" '"));
        let lexeme = scanner.lexeme(&token);
        push_all(&mut out, &chars_of(lexeme.as_str()));
        push_all(&mut out, &chars_of("'\n"));
        assert(out@ =~= before + listing_line(
            prev0,
            token.ty,
            token.line as int,
            s.subrange(token.start as int, token.start + token.length),
        ));
        if token.ty == TOKEN::EOF {
            return Ok(string_of(&out));
        }
        proof {
            let text = listing_line(
                prev0,
                token.ty,
                token.line as int,
                s.subrange(token.start as int, token.start + token.length),
            );
            let rest = listing(s, scanner.spec_current(), scanner.spec_line(), prev as int);
            assert(text == listing_line(prev0, token.ty, st.line, s.subrange(st.start, st.end)));
            assert(listing(s, cur, line, prev0) == prepend(text, rest));
            if rest is Ok {
                assert(before + (text + rest->Ok_0) =~= out@ + rest->Ok_0);
            }
        }
    }
}

/// Compiles `source`: a compile error when scanning fails, else the token
/// listing that the compiler stage prints.
pub fn interpret(source: String) -> (r: Result<String, InterpretError>)
    requires
        source@.len() < usize::MAX,
    ensures
        match listing(source@, 0, 1, 0) {
            Ok(t) => r matches Ok(x) && x@ == t,
            Err(_) => r == Err::<String, InterpretError>(InterpretError::COMPILE_ERROR),
        },
{
    match compile(source) {
        Ok(listing) => Ok(listing),
        Err(_) => Err(InterpretError::COMPILE_ERROR),
    }
}

} // verus!
