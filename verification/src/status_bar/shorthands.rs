pub mod list;

use vstd::prelude::*;

verus! {

/// An ASCII decimal digit.
pub open spec fn is_ascii_digit(c: char) -> bool {
    48 <= c as int && c as int <= 57
}

/// The value of an ASCII decimal digit.
pub open spec fn ascii_digit_val(c: char) -> int {
    c as int - 48
}

/// Whether regex-lite accepts `p` as a pattern.
pub uninterp spec fn regex_compiles(p: Seq<char>) -> bool;

/// The number of capture groups of the compiled pattern `p`, the
/// implicit whole-match group included.
pub uninterp spec fn regex_group_count(p: Seq<char>) -> int;

/// The leftmost match of `p` in `t`, as one text per capture group —
/// group 0 first — with groups that took no part matched to the empty
/// text. `None` when `t` has no match.
pub uninterp spec fn regex_captures_of(p: Seq<char>, t: Seq<char>) -> Option<Seq<Seq<char>>>;

/// Relies on regex-lite's `Regex::new`, which succeeds exactly on the
/// patterns the crate accepts, and `Regex::captures_len`, the number of
/// capture groups counting the implicit one, so at least 1.
#[verifier::external_body]
fn compile_group_count(pattern: &str) -> (r: Option<usize>)
    ensures
        r is Some == regex_compiles(pattern@),
        r matches Some(n) ==> n == regex_group_count(pattern@) && n >= 1,
{
    regex_lite::Regex::new(pattern).ok().map(|re| re.captures_len())
}

/// Relies on regex-lite's `Regex::new` and `Regex::captures`, which
/// returns the capture groups of the leftmost match, or nothing when
/// the target has no match; groups that took no part come out as the
/// empty text.
#[verifier::external_body]
fn capture_strings(pattern: &str, target: &str) -> (r: Option<Vec<String>>)
    ensures
        !regex_compiles(pattern@) ==> r is None,
        regex_compiles(pattern@) ==> ((r is Some) == (regex_captures_of(pattern@, target@)
            is Some)),
        regex_compiles(pattern@) && r is Some ==> r->0.deep_view() == regex_captures_of(
            pattern@,
            target@,
        )->0,
{
    let re = regex_lite::Regex::new(pattern).ok()?;
    let caps = re.captures(target)?;
    Some(
        caps.iter().map(|m| m.map_or(String::new(), |m| m.as_str().to_string())).collect(),
    )
}

/// The largest capture index the format string mentions: for every
/// maximal digit run right after a `$`, its last digit counts. Zero when
/// no such run occurs.
pub open spec fn counts_as_arg(f: Seq<char>, k: int) -> bool {
    &&& 0 <= k < f.len()
    &&& is_ascii_digit(f[k])
    &&& (k == f.len() - 1 || !is_ascii_digit(f[k + 1]))
    &&& exists|a: int|
        0 <= a < k && #[trigger] f[a] == '$' && (forall|j: int|
            a < j <= k ==> is_ascii_digit(#[trigger] f[j]))
}

/// The largest counted digit among the first `k` positions.
pub open spec fn max_arg_upto(f: Seq<char>, k: int) -> int
    decreases k,
{
    if k <= 0 {
        0
    } else if counts_as_arg(f, k - 1) && ascii_digit_val(f[k - 1]) > max_arg_upto(f, k - 1) {
        ascii_digit_val(f[k - 1])
    } else {
        max_arg_upto(f, k - 1)
    }
}

/// The largest capture index a format string mentions.
pub open spec fn max_format_arg(f: Seq<char>) -> int {
    max_arg_upto(f, f.len() as int)
}

/// The format string with every `$` followed by a digit below the group
/// count replaced by that group's text, read left to right.
pub open spec fn subst_from(f: Seq<char>, caps: Seq<Seq<char>>, i: int) -> Seq<char>
    decreases f.len() - i,
{
    if i < 0 || i >= f.len() {
        Seq::empty()
    } else if f[i] == '$' && i + 1 < f.len() && is_ascii_digit(f[i + 1]) && ascii_digit_val(
        f[i + 1],
    ) < caps.len() {
        caps[ascii_digit_val(f[i + 1])] + subst_from(f, caps, i + 2)
    } else {
        seq![f[i]] + subst_from(f, caps, i + 1)
    }
}

/// What applying a shorthand to a target yields: the substituted format
/// string when the pattern matches, and nothing otherwise or when the
/// pattern does not compile.
pub open spec fn shorthand_result(p: Seq<char>, f: Seq<char>, t: Seq<char>) -> Option<Seq<char>> {
    if regex_compiles(p) {
        match regex_captures_of(p, t) {
            Some(caps) => Some(subst_from(f, caps, 0)),
            Option::None => Option::None,
        }
    } else {
        Option::None
    }
}

/// A rewriting rule for status-bar input: a regex pattern, and a format
/// string whose `$`-references are filled from the pattern's capture
/// groups.
pub struct Shorthand {
    pattern: String,
    format: String,
}

impl Shorthand {
    /// The pattern compiles and has more capture groups than the
    /// largest index the format string mentions.
    pub open spec fn wf(&self) -> bool {
        &&& regex_compiles(self.pattern_view())
        &&& regex_group_count(self.pattern_view()) > max_format_arg(self.format_view())
    }

    /// The pattern text.
    pub closed spec fn pattern_view(&self) -> Seq<char> {
        self.pattern@
    }

    /// The format text.
    pub closed spec fn format_view(&self) -> Seq<char> {
        self.format@
    }

    /// The largest capture index mentioned in `format`.
    fn find_arg_count_in_format_str(format: &str) -> (r: usize)
        ensures
            r == max_format_arg(format@),
            r <= 9,
    {
        let f_len = format.unicode_len();
        let mut max: usize = 0;
        let mut k: usize = 0;
        while k < f_len
            invariant
                f_len == format@.len(),
                k <= f_len,
                max == max_arg_upto(format@, k as int),
                max <= 9,
            decreases f_len - k,
        {
            let ghost f = format@;
            let c = format.get_char(k);
            let code = c as u32;
            let mut counted = false;
            if 48 <= code && code <= 57 {
                let next_is_digit = if k + 1 < f_len {
                    let c2 = format.get_char(k + 1);
                    let code2 = c2 as u32;
                    48 <= code2 && code2 <= 57
                } else {
                    false
                };
                if !next_is_digit {
                    // Walk back over the digit run to see whether a `$`
                    // opens it.
                    let mut a: usize = k;
                    while a > 0
                        invariant_except_break
                            f == format@,
                            a <= k < f.len(),
                            forall|j: int| a <= j <= k ==> is_ascii_digit(#[trigger] f[j]),
                        ensures
                            f == format@,
                            a <= k < f.len(),
                            forall|j: int| a <= j <= k ==> is_ascii_digit(#[trigger] f[j]),
                            a == 0 || !is_ascii_digit(f[a - 1]),
                        decreases a,
                    {
                        let cp = format.get_char(a - 1);
                        let codep = cp as u32;
                        if 48 <= codep && codep <= 57 {
                            a = a - 1;
                        } else {
                            break ;
                        }
                    }
                    if a > 0 && format.get_char(a - 1) == '$' {
                        counted = true;
                        proof {
                            assert(f[a - 1] == '$');
                            assert(counts_as_arg(f, k as int));
                        }
                        let val = (code - 48) as usize;
                        if val > max {
                            max = val;
                        }
                    } else {
                        proof {
                            if counts_as_arg(f, k as int) {
                                let w = choose|w: int|
                                    0 <= w < k && #[trigger] f[w] == '$' && (forall|j: int|
                                        w < j <= k ==> is_ascii_digit(#[trigger] f[j]));
                                if w >= a {
                                    assert(is_ascii_digit(f[w]));
                                } else {
                                    assert(w < a - 1 || w == a - 1);
                                    if w < a - 1 {
                                        assert(is_ascii_digit(f[a - 1]));
                                    }
                                }
                                assert(false);
                            }
                        }
                    }
                } else {
                    proof {
                        assert(!counts_as_arg(f, k as int));
                    }
                }
            } else {
                proof {
                    assert(!counts_as_arg(f, k as int));
                }
            }
            k = k + 1;
        }
        max
    }

    /// Build a shorthand. Succeeds exactly when the pattern compiles and
    /// every capture index the format string mentions names a real
    /// group.
    pub fn try_new(pattern: &str, format: &str) -> (r: Option<Shorthand>)
        ensures
            r is Some <==> regex_compiles(pattern@) && regex_group_count(pattern@)
                > max_format_arg(format@),
            r matches Some(sh) ==> sh.pattern_view() == pattern@ && sh.format_view() == format@
                && sh.wf(),
    {
        let groups = match compile_group_count(pattern) {
            Some(g) => g,
            Option::None => {
                return None;
            },
        };
        if groups <= Self::find_arg_count_in_format_str(format) {
            return None;
        }
        Some(Shorthand { pattern: pattern.to_owned(), format: format.to_owned() })
    }

    /// Apply the shorthand: when the pattern matches the target, the
    /// format string with its capture references filled in; otherwise
    /// nothing.
    pub fn apply_to_string(&self, target: &str) -> (r: Option<String>)
        ensures
            (r is Some) == (shorthand_result(self.pattern_view(), self.format_view(), target@)
                is Some),
            r matches Some(out) ==> Some(out@) == shorthand_result(
                self.pattern_view(),
                self.format_view(),
                target@,
            ),
    {
        let caps = match capture_strings(self.pattern.as_str(), target) {
            Some(c) => c,
            Option::None => {
                return None;
            },
        };
        let ghost cs = regex_captures_of(self.pattern@, target@)->0;
        proof {
            assert(caps.deep_view() == cs);
            assert(caps@.len() == cs.len());
        }

        let f_len = self.format.as_str().unicode_len();
        let format = self.format.as_str();
        let mut out = String::new();
        let mut i: usize = 0;
        while i < f_len
            invariant
                f_len == format@.len(),
                i <= f_len,
                caps.deep_view() == cs,
                subst_from(format@, cs, 0) == out@ + subst_from(format@, cs, i as int),
            decreases f_len - i,
        {
            let ghost f = format@;
            let ghost pre = out@;
            let c = format.get_char(i);
            let mut stepped = false;
            if c == '$' && i + 1 < f_len {
                let c2 = format.get_char(i + 1);
                let code2 = c2 as u32;
                if 48 <= code2 && code2 <= 57 {
                    let d = (code2 - 48) as usize;
                    if d < caps.len() {
                        proof {
                            assert(cs[d as int] == caps@[d as int]@);
                        }
                        out.append(caps[d].as_str());
                        i = i + 2;
                        stepped = true;
                        proof {
                            assert(pre + (caps@[d as int]@ + subst_from(f, cs, i as int)) =~= (pre
                                + caps@[d as int]@) + subst_from(f, cs, i as int));
                        }
                    }
                }
            }
            if !stepped {
                out.append(format.substring_char(i, i + 1));
                i = i + 1;
                proof {
                    assert(f.subrange(i - 1, i as int) =~= seq![f[i - 1]]);
                    assert(pre + (seq![f[i - 1]] + subst_from(f, cs, i as int)) =~= (pre + seq![
                        f[i - 1],
                    ]) + subst_from(f, cs, i as int));
                }
            }
        }
        proof {
            assert(subst_from(format@, cs, f_len as int) =~= Seq::<char>::empty());
            assert(out@ + Seq::<char>::empty() =~= out@);
        }
        Some(out)
    }
}

} // verus!
