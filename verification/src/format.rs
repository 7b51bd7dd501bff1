//! Date-format conversion and text helpers for the display layer.

use vstd::prelude::*;

verus! {

/// True when `s` contains a single `'D'` day specifier but no `"DD"`.
pub open spec fn has_single_day(s: Seq<char>) -> bool {
    &&& exists|i: int| 0 <= i < s.len() && #[trigger] s[i] == 'D'
    &&& !(exists|i: int| 0 <= i && i + 1 < s.len() && #[trigger] s[i] == 'D' && s[i + 1] == 'D')
}

/// One left-to-right, non-overlapping textual replacement of `pat` by
/// `rep`, as `str::replace` makes it: wherever `pat` starts, `rep` is
/// emitted and the match consumed; every other character is copied.
pub open spec fn replace_rewrite(s: Seq<char>, pat: Seq<char>, rep: Seq<char>) -> Seq<char>
    decreases s.len(),
{
    if s.len() == 0 {
        Seq::empty()
    } else if 0 < pat.len() <= s.len() && s.take(pat.len() as int) == pat {
        rep + replace_rewrite(s.skip(pat.len() as int), pat, rep)
    } else {
        seq![s[0]] + replace_rewrite(s.skip(1), pat, rep)
    }
}

/// The display date format rewritten to a strftime format: the specifier
/// table `dddd -> %A`, `ddd -> %a`, `YYYY -> %Y`, `YY -> %y`, `MMMM -> %B`,
/// `MMM -> %b`, `DD -> %d`, `D -> %d` applied as successive textual
/// replacements in that order, each pass scanning the previous pass's
/// output (so five consecutive `Y`s end as `%%y`: `YYYYY` gives `%YY`,
/// whose trailing `YY` the next pass rewrites again).
pub open spec fn strftime_rewrite(s: Seq<char>) -> Seq<char> {
    let s1 = replace_rewrite(s, seq!['d', 'd', 'd', 'd'], seq!['%', 'A']);
    let s2 = replace_rewrite(s1, seq!['d', 'd', 'd'], seq!['%', 'a']);
    let s3 = replace_rewrite(s2, seq!['Y', 'Y', 'Y', 'Y'], seq!['%', 'Y']);
    let s4 = replace_rewrite(s3, seq!['Y', 'Y'], seq!['%', 'y']);
    let s5 = replace_rewrite(s4, seq!['M', 'M', 'M', 'M'], seq!['%', 'B']);
    let s6 = replace_rewrite(s5, seq!['M', 'M', 'M'], seq!['%', 'b']);
    let s7 = replace_rewrite(s6, seq!['D', 'D'], seq!['%', 'd']);
    replace_rewrite(s7, seq!['D'], seq!['%', 'd'])
}

/// Replace every non-overlapping occurrence of `pat` by `rep`, left to
/// right.
fn replace_pass(s: &str, pat: &str, rep: &str) -> (r: String)
    requires
        pat@.len() > 0,
    ensures
        r@ == replace_rewrite(s@, pat@, rep@),
{
    let len = s.unicode_len();
    let plen = pat.unicode_len();
    let mut out = String::new();
    let mut i: usize = 0;
    proof {
        assert(s@.skip(0) =~= s@);
    }
    while i < len
        invariant
            len == s@.len(),
            plen == pat@.len(),
            plen > 0,
            i <= len,
            replace_rewrite(s@, pat@, rep@) == out@ + replace_rewrite(
                s@.skip(i as int),
                pat@,
                rep@,
            ),
        decreases len - i,
    {
        let ghost rest = s@.skip(i as int);
        proof {
            assert(rest.len() == len - i);
            assert(forall|k: int| 0 <= k < rest.len() ==> rest[k] == s@[i + k]);
        }
        let fits = plen <= len - i;
        let mut eq = fits;
        let mut j: usize = 0;
        while j < plen
            invariant
                len == s@.len(),
                plen == pat@.len(),
                i < len,
                j <= plen,
                fits == (plen <= len - i),
                eq == (fits && (forall|k: int| 0 <= k < j ==> s@[i + k] == pat@[k])),
            decreases plen - j,
        {
            if fits {
                if s.get_char(i + j) != pat.get_char(j) {
                    eq = false;
                }
            }
            j = j + 1;
        }
        proof {
            if eq {
                assert(rest.take(plen as int) =~= pat@);
            } else if plen <= rest.len() && rest.take(plen as int) == pat@ {
                assert(forall|k: int| 0 <= k < plen ==> s@[i + k] == rest.take(plen as int)[k]);
                assert(false);
            }
        }
        if eq {
            out.append(rep);
            proof {
                assert(rest.skip(plen as int) =~= s@.skip(i + plen as int));
            }
            i = i + plen;
        } else {
            let c0 = s.get_char(i);
            out.push(c0);
            proof {
                assert(rest[0] == s@[i as int]);
                assert(rest.skip(1) =~= s@.skip(i as int + 1));
            }
            i = i + 1;
        }
    }
    proof {
        assert(replace_rewrite(s@.skip(len as int), pat@, rep@) =~= Seq::<char>::empty());
        assert(out@ =~= replace_rewrite(s@, pat@, rep@));
    }
    out
}

/// Convert a human-friendly date format to a strftime format.
///
/// Returns the strftime format and whether the day is to be shown without a
/// leading zero (the format used `D` rather than `DD`).
pub fn to_strftime_format(format: &str) -> (r: (String, bool))
    ensures
        r.0@ == strftime_rewrite(format@),
        r.1 == has_single_day(format@),
{
    let len = format.unicode_len();

    // Does the format contain "D" but not "DD"?
    let mut has_d = false;
    let mut has_dd = false;
    let mut i: usize = 0;
    while i < len
        invariant
            len == format@.len(),
            i <= len,
            has_d == exists|j: int| 0 <= j < i && #[trigger] format@[j] == 'D',
            has_dd == exists|j: int|
                0 <= j && j + 1 < len && j < i && #[trigger] format@[j] == 'D' && format@[j + 1] == 'D',
        decreases len - i,
    {
        if format.get_char(i) == 'D' {
            has_d = true;
            if i + 1 < len {
                if format.get_char(i + 1) == 'D' {
                    has_dd = true;
                }
            }
        }
        i = i + 1;
    }
    let single_day = has_d && !has_dd;
    proof {
        if has_dd {
            assert(exists|j: int|
                0 <= j && j + 1 < len && #[trigger] format@[j] == 'D' && format@[j + 1] == 'D');
        }
        if !has_dd {
            assert(!(exists|j: int|
                0 <= j && j + 1 < format@.len() && #[trigger] format@[j] == 'D' && format@[j + 1] == 'D'));
        }
    }

    // The replacement chain.
    proof {
        reveal_strlit("dddd");
        reveal_strlit("%A");
        reveal_strlit("ddd");
        reveal_strlit("%a");
        reveal_strlit("YYYY");
        reveal_strlit("%Y");
        reveal_strlit("YY");
        reveal_strlit("%y");
        reveal_strlit("MMMM");
        reveal_strlit("%B");
        reveal_strlit("MMM");
        reveal_strlit("%b");
        reveal_strlit("DD");
        reveal_strlit("%d");
        reveal_strlit("D");
        assert("dddd"@ =~= seq!['d', 'd', 'd', 'd']);
        assert("%A"@ =~= seq!['%', 'A']);
        assert("ddd"@ =~= seq!['d', 'd', 'd']);
        assert("%a"@ =~= seq!['%', 'a']);
        assert("YYYY"@ =~= seq!['Y', 'Y', 'Y', 'Y']);
        assert("%Y"@ =~= seq!['%', 'Y']);
        assert("YY"@ =~= seq!['Y', 'Y']);
        assert("%y"@ =~= seq!['%', 'y']);
        assert("MMMM"@ =~= seq!['M', 'M', 'M', 'M']);
        assert("%B"@ =~= seq!['%', 'B']);
        assert("MMM"@ =~= seq!['M', 'M', 'M']);
        assert("%b"@ =~= seq!['%', 'b']);
        assert("DD"@ =~= seq!['D', 'D']);
        assert("%d"@ =~= seq!['%', 'd']);
        assert("D"@ =~= seq!['D']);
    }
    let s1 = replace_pass(format, "dddd", "%A");
    let s2 = replace_pass(s1.as_str(), "ddd", "%a");
    let s3 = replace_pass(s2.as_str(), "YYYY", "%Y");
    let s4 = replace_pass(s3.as_str(), "YY", "%y");
    let s5 = replace_pass(s4.as_str(), "MMMM", "%B");
    let s6 = replace_pass(s5.as_str(), "MMM", "%b");
    let s7 = replace_pass(s6.as_str(), "DD", "%d");
    let out = replace_pass(s7.as_str(), "D", "%d");
    (out, single_day)
}

pub open spec fn is_ascii_digit_char(c: char) -> bool {
    '0' <= c && c <= '9'
}

/// The day-zero stripping pass: after a space or newline (or at the very
/// start of the output, while nothing has been emitted), a `'0'` directly
/// followed by another digit is dropped.
pub open spec fn strip_zero_rewrite(s: Seq<char>, nothing_emitted: bool) -> Seq<char>
    decreases s.len(),
{
    if s.len() == 0 {
        Seq::empty()
    } else if (s[0] == ' ' || s[0] == '\n') && s.len() >= 3 && s[1] == '0'
        && is_ascii_digit_char(s[2]) {
        seq![s[0]] + strip_zero_rewrite(s.skip(2), false)
    } else if s[0] == '0' && nothing_emitted && s.len() >= 2 && is_ascii_digit_char(s[1]) {
        strip_zero_rewrite(s.skip(1), nothing_emitted)
    } else {
        seq![s[0]] + strip_zero_rewrite(s.skip(1), false)
    }
}

/// Remove the leading zero from the day portion of a formatted date string:
/// a zero-padded day (`"02 Nov"`, or `" 02"` after a space or newline)
/// becomes a bare day number.
pub fn strip_day_leading_zero(formatted: &str) -> (r: String)
    ensures
        r@ == strip_zero_rewrite(formatted@, true),
{
    let len = formatted.unicode_len();
    let mut out = String::new();
    let mut emitted = false;
    let mut i: usize = 0;
    proof {
        assert(formatted@.skip(0) =~= formatted@);
    }
    while i < len
        invariant
            len == formatted@.len(),
            i <= len,
            emitted == (out@.len() > 0),
            strip_zero_rewrite(formatted@, true)
                == out@ + strip_zero_rewrite(formatted@.skip(i as int), !emitted),
        decreases len - i,
    {
        let ghost rest = formatted@.skip(i as int);
        proof {
            assert(forall|k: int| 0 <= k < rest.len() ==> rest[k] == formatted@[i + k]);
        }
        let c0 = formatted.get_char(i);
        let c1 = if len - i > 1 {
            formatted.get_char(i + 1)
        } else {
            '\0'
        };
        let c2 = if len - i > 2 {
            formatted.get_char(i + 2)
        } else {
            '\0'
        };
        if (c0 == ' ' || c0 == '\n') && len - i >= 3 && c1 == '0' && '0' <= c2 && c2 <= '9' {
            out.push(c0);
            emitted = true;
            proof {
                assert(rest.skip(2) =~= formatted@.skip(i + 2));
            }
            i = i + 2;
        } else if c0 == '0' && !emitted && len - i >= 2 && '0' <= c1 && c1 <= '9' {
            proof {
                assert(rest.skip(1) =~= formatted@.skip(i + 1));
            }
            i = i + 1;
        } else {
            out.push(c0);
            emitted = true;
            proof {
                assert(rest.skip(1) =~= formatted@.skip(i + 1));
            }
            i = i + 1;
        }
    }
    proof {
        assert(strip_zero_rewrite(formatted@.skip(len as int), !emitted)
            =~= Seq::<char>::empty());
        assert(out@ =~= strip_zero_rewrite(formatted@, true));
    }
    out
}


/// A character with the Unicode White_Space property, as whitespace
/// splitting and trimming understand it.
pub open spec fn is_ws(c: char) -> bool {
    ||| (9 <= (c as u32) && (c as u32) <= 13)
    ||| (c as u32) == 32
    ||| (c as u32) == 0x85
    ||| (c as u32) == 0xA0
    ||| (c as u32) == 0x1680
    ||| (0x2000 <= (c as u32) && (c as u32) <= 0x200A)
    ||| (c as u32) == 0x2028
    ||| (c as u32) == 0x2029
    ||| (c as u32) == 0x202F
    ||| (c as u32) == 0x205F
    ||| (c as u32) == 0x3000
}

pub fn is_ws_exec(c: char) -> (r: bool)
    ensures
        r == is_ws(c),
{
    let u = c as u32;
    (9 <= u && u <= 13) || u == 32 || u == 0x85 || u == 0xA0 || u == 0x1680 || (0x2000 <= u && u
        <= 0x200A) || u == 0x2028 || u == 0x2029 || u == 0x202F || u == 0x205F || u == 0x3000
}

/// The maximal whitespace-free runs of `s` from position `cur` on; the run
/// under construction began at `start`.
pub open spec fn words_scan(s: Seq<char>, start: int, cur: int) -> Seq<Seq<char>>
    decreases s.len() - cur,
{
    if !(0 <= start <= cur && cur <= s.len()) {
        Seq::empty()
    } else if cur >= s.len() {
        if start < cur {
            seq![s.subrange(start, cur)]
        } else {
            Seq::empty()
        }
    } else if is_ws(s[cur]) {
        (if start < cur {
            seq![s.subrange(start, cur)]
        } else {
            Seq::empty()
        }) + words_scan(s, cur + 1, cur + 1)
    } else {
        words_scan(s, start, cur + 1)
    }
}

/// The whitespace-separated words of a text.
pub open spec fn words_of(s: Seq<char>) -> Seq<Seq<char>> {
    words_scan(s, 0, 0)
}

/// Greedy wrapping of a word list: words join the current line while they
/// fit (one space between words); a word that does not fit starts a new
/// line, and the wrap stops once the line budget is spent.
pub open spec fn wrap_words(
    ws: Seq<Seq<char>>,
    maxw: int,
    maxl: int,
    cur: Seq<char>,
    acc: Seq<Seq<char>>,
) -> Seq<Seq<char>>
    decreases ws,
{
    if ws.len() == 0 {
        if cur.len() > 0 && acc.len() < maxl {
            acc.push(cur)
        } else {
            acc
        }
    } else {
        let w = ws[0];
        if cur.len() > 0 && cur.len() + 1 + w.len() > maxw {
            let acc2 = acc.push(cur);
            if acc2.len() >= maxl {
                acc2
            } else {
                wrap_words(ws.skip(1), maxw, maxl, w, acc2)
            }
        } else {
            let cur2 = if cur.len() > 0 {
                cur + seq![' '] + w
            } else {
                w
            };
            wrap_words(ws.skip(1), maxw, maxl, cur2, acc)
        }
    }
}

/// Text wrapped to a maximum width and line count: greedy on the words,
/// with one line of the bare (possibly truncated) text when no word fits,
/// and a single empty line for empty text or a zero width.
pub open spec fn wrap_spec(text: Seq<char>, maxw: int, maxl: int) -> Seq<Seq<char>> {
    if text.len() == 0 || maxw == 0 {
        seq![Seq::<char>::empty()]
    } else {
        let ls = wrap_words(words_of(text), maxw, maxl, Seq::empty(), Seq::empty());
        if ls.len() == 0 {
            seq![
                text.take(
                    if maxw < text.len() {
                        maxw
                    } else {
                        text.len() as int
                    },
                ),
            ]
        } else {
            ls
        }
    }
}

/// Split a text into its whitespace-separated words.
fn split_words(text: &str) -> (r: Vec<String>)
    ensures
        r.deep_view() == words_of(text@),
{
    let len = text.unicode_len();
    let mut out: Vec<String> = Vec::new();
    let mut start: usize = 0;
    let mut cur: usize = 0;
    proof {
        assert(out.deep_view() + words_scan(text@, 0, 0) =~= words_scan(text@, 0, 0));
    }
    while cur < len
        invariant
            len == text@.len(),
            start <= cur <= len,
            words_of(text@) == out.deep_view() + words_scan(text@, start as int, cur as int),
        decreases len - cur,
    {
        if is_ws_exec(text.get_char(cur)) {
            if start < cur {
                let ghost pre = out.deep_view();
                let w = text.substring_char(start, cur).to_owned();
                out.push(w);
                proof {
                    assert(out.deep_view() =~= pre.push(text@.subrange(start as int, cur as int)));
                    assert(out.deep_view() + words_scan(text@, cur as int + 1, cur as int + 1)
                        =~= pre + (seq![text@.subrange(start as int, cur as int)] + words_scan(
                        text@,
                        cur as int + 1,
                        cur as int + 1,
                    )));
                }
            }
            start = cur + 1;
            cur = cur + 1;
        } else {
            cur = cur + 1;
        }
    }
    if start < len {
        let ghost pre = out.deep_view();
        let w = text.substring_char(start, len).to_owned();
        out.push(w);
        proof {
            assert(out.deep_view() =~= pre.push(text@.subrange(start as int, len as int)));
        }
    }
    proof {
        assert(out.deep_view() =~= words_of(text@));
    }
    out
}

/// Wrap text to fit within a maximum width, yielding at most `max_lines`
/// lines (at least one); a single word wider than the width still gets a
/// line of its own.
pub fn wrap_text(text: &str, max_width: usize, max_lines: usize) -> (r: Vec<String>)
    ensures
        r.deep_view() == wrap_spec(text@, max_width as int, max_lines as int),
{
    let ghost maxw = max_width as int;
    let ghost maxl = max_lines as int;
    if text.unicode_len() == 0 || max_width == 0 {
        let mut r: Vec<String> = Vec::new();
        r.push(String::new());
        proof {
            assert(r.deep_view() =~= seq![Seq::<char>::empty()]);
        }
        return r;
    }
    let words = split_words(text);
    let ghost wsv = words.deep_view();
    let mut acc: Vec<String> = Vec::new();
    let mut cur = String::new();
    let mut broke = false;
    let mut i: usize = 0;
    proof {
        assert(wsv.skip(0) =~= wsv);
        assert(acc.deep_view() =~= Seq::<Seq<char>>::empty());
    }
    while i < words.len() && !broke
        invariant
            i <= words@.len(),
            wsv == words.deep_view(),
            wsv.len() == words@.len(),
            maxw == max_width as int,
            maxl == max_lines as int,
            broke ==> acc.deep_view().len() >= 1,
            wrap_words(wsv, maxw, maxl, Seq::empty(), Seq::empty()) == (if broke {
                acc.deep_view()
            } else {
                wrap_words(wsv.skip(i as int), maxw, maxl, cur@, acc.deep_view())
            }),
        decreases words@.len() - i,
    {
        proof {
            assert(wsv.skip(i as int)[0] == wsv[i as int]);
            assert(wsv.skip(i as int).skip(1) =~= wsv.skip(i as int + 1));
            assert(words.deep_view()[i as int] == words@[i as int]@);
        }
        let w = &words[i];
        let wl = w.as_str().unicode_len();
        let curn = cur.as_str().unicode_len();
        let overflows = curn > 0 && (wl > max_width || curn >= max_width - wl);
        proof {
            assert(overflows == (cur@.len() > 0 && cur@.len() + 1 + wsv[i as int].len() > maxw));
        }
        if overflows {
            let ghost acc0 = acc.deep_view();
            let mut line = String::new();
            core::mem::swap(&mut cur, &mut line);
            let ghost lineg = line@;
            acc.push(line);
            proof {
                assert(acc.deep_view() =~= acc0.push(lineg));
            }
            if acc.len() >= max_lines {
                broke = true;
            } else {
                cur = w.clone();
            }
        } else {
            let ghost cur0 = cur@;
            if curn > 0 {
                cur.push(' ');
            }
            cur.append(w.as_str());
            proof {
                if curn > 0 {
                    assert(cur@ =~= cur0 + seq![' '] + wsv[i as int]);
                } else {
                    assert(cur@ =~= wsv[i as int]);
                }
            }
        }
        i = i + 1;
    }
    if !broke {
        proof {
            assert(wsv.skip(words@.len() as int).len() == 0);
        }
        let curn = cur.as_str().unicode_len();
        if curn > 0 && acc.len() < max_lines {
            acc.push(cur);
        }
    }
    if acc.len() == 0 {
        let len = text.unicode_len();
        let upto = if max_width < len {
            max_width
        } else {
            len
        };
        let t = text.substring_char(0, upto).to_owned();
        let mut r: Vec<String> = Vec::new();
        r.push(t);
        proof {
            assert(r.deep_view() =~= seq![
                text@.take(
                    if maxw < text@.len() {
                        maxw
                    } else {
                        text@.len() as int
                    },
                ),
            ]);
        }
        return r;
    }
    proof {
        assert(acc.deep_view() =~= wrap_spec(text@, maxw, maxl));
    }
    acc
}


} // verus!
