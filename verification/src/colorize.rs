//! A small run-time interpreter for color templates.
//!
//! A template is ordinary text with placeholders: `{}` is replaced by the
//! next argument, and `{'name}` by the escape code of that name from a fixed
//! table — an unknown name becomes nothing. A `{` that opens no placeholder,
//! or a placeholder that never closes, stays literal text.

use crate::codes::{
    push_char, BLACK_FG, BLUE_FG, BOLD, CLEAR, CYAN_FG, GRAY_FG, GREEN_FG, INVERSE, ITALIC,
    MAGENTA_FG, RED_FG, RESET, UNDERLINE, WHITE_FG, YELLOW_FG,
};
use vstd::prelude::*;
use vstd::string::{StrSliceExecFns, StringExecFns};

verus! {

/// The escape code a placeholder name stands for; an unknown name stands
/// for no text.
pub open spec fn code_of(name: Seq<char>) -> Seq<char> {
    if name == "red"@ {
        RED_FG@
    } else if name == "green"@ {
        GREEN_FG@
    } else if name == "blue"@ {
        BLUE_FG@
    } else if name == "yellow"@ {
        YELLOW_FG@
    } else if name == "magenta"@ {
        MAGENTA_FG@
    } else if name == "cyan"@ {
        CYAN_FG@
    } else if name == "white"@ {
        WHITE_FG@
    } else if name == "black"@ {
        BLACK_FG@
    } else if name == "gray"@ {
        GRAY_FG@
    } else if name == "bold"@ {
        BOLD@
    } else if name == "italic"@ {
        ITALIC@
    } else if name == "underline"@ {
        UNDERLINE@
    } else if name == "inverse"@ {
        INVERSE@
    } else if name == "reset"@ {
        RESET@
    } else if name == "clear"@ {
        CLEAR@
    } else {
        Seq::empty()
    }
}

/// The index of the first closing brace, or a negative value if there is
/// none.
pub open spec fn find_close(t: Seq<char>) -> int
    decreases t.len(),
{
    if t.len() == 0 {
        -1
    } else if t[0] == '}' {
        0
    } else {
        let r = find_close(t.skip(1));
        if r < 0 {
            -1
        } else {
            1 + r
        }
    }
}

/// The first closing brace is a closing brace, nothing before it is one,
/// and a negative result means there is none at all.
pub proof fn lemma_find_close(t: Seq<char>)
    ensures
        find_close(t) >= 0 ==> {
            &&& find_close(t) < t.len()
            &&& t[find_close(t)] == '}'
            &&& forall|k: int| 0 <= k < find_close(t) ==> t[k] != '}'
        },
        find_close(t) < 0 ==> forall|k: int| 0 <= k < t.len() ==> t[k] != '}',
    decreases t.len(),
{
    if t.len() == 0 {
    } else if t[0] == '}' {
    } else {
        lemma_find_close(t.skip(1));
        let r = find_close(t.skip(1));
        if r >= 0 {
            assert(t[1 + r] == t.skip(1)[r]);
            assert forall|k: int| 0 <= k < 1 + r implies t[k] != '}' by {
                if k > 0 {
                    assert(t[k] == t.skip(1)[k - 1]);
                }
            }
        } else {
            assert forall|k: int| 0 <= k < t.len() implies t[k] != '}' by {
                if k > 0 {
                    assert(t[k] == t.skip(1)[k - 1]);
                }
            }
        }
    }
}

/// What a template prints, reading it from the front with the next unused
/// argument index at hand.
pub open spec fn colorize_spec(t: Seq<char>, args: Seq<Seq<char>>, ai: int) -> Seq<char>
    decreases t.len(),
    via colorize_spec_decreases
{
    if t.len() == 0 {
        Seq::empty()
    } else if t[0] == '{' && t.len() >= 2 && t[1] == '}' {
        (if 0 <= ai < args.len() {
            args[ai]
        } else {
            Seq::empty()
        }) + colorize_spec(t.skip(2), args, ai + 1)
    } else if t[0] == '{' && t.len() >= 2 && t[1] == '\'' {
        let r = find_close(t.skip(2));
        if r < 0 {
            t
        } else {
            code_of(t.skip(2).take(r)) + colorize_spec(t.skip(3 + r), args, ai)
        }
    } else {
        seq![t[0]] + colorize_spec(t.skip(1), args, ai)
    }
}

#[via_fn]
proof fn colorize_spec_decreases(t: Seq<char>, args: Seq<Seq<char>>, ai: int) {
    if t.len() >= 2 && t[0] == '{' && t[1] == '\'' {
        lemma_find_close(t.skip(2));
    }
}

fn lookup_code(name: &String) -> (code: &'static str)
    ensures
        code@ == code_of(name@),
{
    let code: &'static str = if *name == String::from_str("red") {
        RED_FG
    } else if *name == String::from_str("green") {
        GREEN_FG
    } else if *name == String::from_str("blue") {
        BLUE_FG
    } else if *name == String::from_str("yellow") {
        YELLOW_FG
    } else if *name == String::from_str("magenta") {
        MAGENTA_FG
    } else if *name == String::from_str("cyan") {
        CYAN_FG
    } else if *name == String::from_str("white") {
        WHITE_FG
    } else if *name == String::from_str("black") {
        BLACK_FG
    } else if *name == String::from_str("gray") {
        GRAY_FG
    } else if *name == String::from_str("bold") {
        BOLD
    } else if *name == String::from_str("italic") {
        ITALIC
    } else if *name == String::from_str("underline") {
        UNDERLINE
    } else if *name == String::from_str("inverse") {
        INVERSE
    } else if *name == String::from_str("reset") {
        RESET
    } else if *name == String::from_str("clear") {
        CLEAR
    } else {
        ""
    };
    proof {
        reveal_strlit("");
        assert(""@ =~= Seq::<char>::empty());
    }
    code
}

/// Substitutes the placeholders of a template: `{}` takes the next
/// argument, `{'name}` takes the named escape code, everything else stays
/// as it is.
pub fn colorize(template: &str, args: &Vec<String>) -> (out: String)
    ensures
        out@ == colorize_spec(template@, args.deep_view(), 0),
{
    let ghost t = template@;
    let ghost argsv = args.deep_view();
    let n = template.unicode_len();
    let mut out = String::new();
    let mut i: usize = 0;
    let mut ai: usize = 0;
    proof {
        assert(t.skip(0) =~= t);
        assert(Seq::<char>::empty() + colorize_spec(t, argsv, 0) =~= colorize_spec(t, argsv, 0));
    }
    while i < n
        invariant
            n == t.len(),
            t == template@,
            argsv == args.deep_view(),
            i <= n,
            ai <= i,
            colorize_spec(t, argsv, 0) == out@ + colorize_spec(t.skip(i as int), argsv, ai as int),
        decreases n - i,
    {
        let ghost rest = t.skip(i as int);
        let c = template.get_char(i);
        if c == '{' && i + 1 < n && template.get_char(i + 1) == '}' {
            proof {
                assert(rest[0] == t[i as int]);
                assert(rest[1] == t[i as int + 1]);
                assert(rest.skip(2) =~= t.skip(i as int + 2));
            }
            if ai < args.len() {
                let arg = &args[ai];
                out.append(arg.as_str());
                proof {
                    assert(argsv[ai as int] == args@[ai as int]@);
                }
            } else {
                proof {
                    assert(ai as int >= argsv.len());
                }
            }
            proof {
                assert(colorize_spec(t, argsv, 0) =~= out@ + colorize_spec(
                    t.skip(i as int + 2),
                    argsv,
                    ai as int + 1,
                ));
            }
            i = i + 2;
            ai = ai + 1;
        } else if c == '{' && i + 1 < n && template.get_char(i + 1) == '\'' {
            proof {
                assert(rest[0] == t[i as int]);
                assert(rest[1] == t[i as int + 1]);
            }
            let mut j = i + 2;
            while j < n && template.get_char(j) != '}'
                invariant
                    n == t.len(),
                    t == template@,
                    i + 2 <= j <= n,
                    forall|k: int| i + 2 <= k < j ==> t[k] != '}',
                decreases n - j,
            {
                j = j + 1;
            }
            let ghost body = t.skip(i as int + 2);
            proof {
                assert(rest.skip(2) =~= body);
                lemma_find_close(body);
                if j < n {
                    let r = find_close(body);
                    assert(t[j as int] == '}');
                    assert(forall|k: int| 0 <= k < j - i - 2 ==> body[k] == t[i as int + 2 + k]
                        && t[i as int + 2 + k] != '}');
                    if r < 0 {
                        assert(body[j - i - 2 as int] != '}');
                        assert(false);
                    }
                    if r < j - i - 2 {
                        assert(body[r] == '}');
                        assert(false);
                    }
                    if r > j - i - 2 {
                        assert(body[j - i - 2 as int] != '}');
                        assert(false);
                    }
                    assert(r == j - i - 2);
                } else {
                    let r = find_close(body);
                    if r >= 0 {
                        assert(body[r] == t[i as int + 2 + r]);
                        assert(false);
                    }
                }
            }
            if j < n {
                let name = template.substring_char(i + 2, j);
                let owned = name.to_owned();
                let code = lookup_code(&owned);
                out.append(code);
                proof {
                    let r = find_close(body);
                    assert(rest.skip(2) =~= body);
                    assert(find_close(rest.skip(2)) == r);
                    assert(rest.skip(2).take(r) =~= body.take(r));
                    assert(owned@ =~= body.take(r));
                    assert(rest.skip(3 + r) =~= t.skip(j as int + 1));
                    assert(colorize_spec(rest, argsv, ai as int) == code_of(rest.skip(2).take(r))
                        + colorize_spec(rest.skip(3 + r), argsv, ai as int));
                    assert(colorize_spec(t, argsv, 0) =~= out@ + colorize_spec(
                        t.skip(j as int + 1),
                        argsv,
                        ai as int,
                    ));
                }
                i = j + 1;
            } else {
                let tail = template.substring_char(i, n);
                out.append(tail);
                proof {
                    assert(t.subrange(i as int, n as int) =~= rest);
                    assert(t.skip(n as int) =~= Seq::<char>::empty());
                    assert(colorize_spec(t.skip(n as int), argsv, ai as int) == Seq::<
                        char,
                    >::empty());
                    assert(out@ + colorize_spec(t.skip(n as int), argsv, ai as int) =~= out@);
                    assert(colorize_spec(t, argsv, 0) =~= out@ + colorize_spec(
                        t.skip(n as int),
                        argsv,
                        ai as int,
                    ));
                }
                i = n;
            }
        } else {
            push_char(&mut out, c);
            proof {
                assert(rest[0] == t[i as int]);
                assert(rest.skip(1) =~= t.skip(i as int + 1));
                if rest.len() >= 2 {
                    assert(rest[1] == t[i as int + 1]);
                }
                assert(colorize_spec(t, argsv, 0) =~= out@ + colorize_spec(
                    t.skip(i as int + 1),
                    argsv,
                    ai as int,
                ));
            }
            i = i + 1;
        }
    }
    proof {
        assert(t.skip(n as int) =~= Seq::<char>::empty());
        assert(colorize_spec(t.skip(n as int), argsv, ai as int) == Seq::<char>::empty());
        assert(out@ + Seq::<char>::empty() =~= out@);
    }
    out
}

} // verus!
