//! Template renderer: merges a profile into the subject/body template by
//! token substitution. Pure and total; unrecognized tokens stay verbatim,
//! absent optional links render as the fallback text `N/A`.

use vstd::prelude::*;
use vstd::string::StrSliceExecFns;
use vstd::string::StringExecFns;

use crate::config::Config;
use crate::config::EmailTemplate;
use crate::config::Profile;
use crate::store::chars_to_string;

verus! {

/// The result of replacing, left to right and without overlap, every
/// occurrence of the non-empty pattern `pat` in `s` by `to`.
pub open spec fn replaced(s: Seq<char>, pat: Seq<char>, to: Seq<char>) -> Seq<char>
    decreases s.len(),
{
    if pat.len() == 0 {
        s
    } else if s.len() < pat.len() {
        s
    } else if s.subrange(0, pat.len() as int) == pat {
        to + replaced(s.skip(pat.len() as int), pat, to)
    } else {
        seq![s[0]] + replaced(s.skip(1), pat, to)
    }
}

/// Whether the token `pat` occurs anywhere in `s`.
pub open spec fn has_token(s: Seq<char>, pat: Seq<char>) -> bool {
    exists|i: int|
        0 <= i <= s.len() - pat.len() && #[trigger] s.subrange(i, i + pat.len()) == pat
}

/// Law: substitution is single-pass, never recursive — on text that does
/// not contain the token it is the identity. Re-rendering output whose
/// tokens are all gone therefore changes nothing.
pub proof fn lemma_replaced_token_free(s: Seq<char>, pat: Seq<char>, to: Seq<char>)
    requires
        pat.len() > 0,
        !has_token(s, pat),
    ensures
        replaced(s, pat, to) == s,
    decreases s.len(),
{
    if s.len() < pat.len() {
    } else {
        if s.subrange(0, pat.len() as int) == pat {
            assert(s.subrange(0, 0 + pat.len() as int) == pat);
            assert(has_token(s, pat));
            assert(false);
        }
        let s1 = s.skip(1);
        assert forall|i: int|
            0 <= i <= s1.len() - pat.len() implies #[trigger] s1.subrange(i, i + pat.len())
            != pat by {
            assert(s1.subrange(i, i + pat.len()) =~= s.subrange(i + 1, i + 1 + pat.len()));
            if s.subrange(i + 1, i + 1 + pat.len()) == pat {
                assert(has_token(s, pat));
            }
        }
        assert(!has_token(s1, pat));
        lemma_replaced_token_free(s1, pat, to);
        assert(seq![s[0]] + s1 =~= s);
    }
}

fn starts_with_at(s: &str, n: usize, i: usize, pat: &str, m: usize) -> (r: bool)
    requires
        n == s@.len(),
        m == pat@.len(),
        i <= n,
    ensures
        r == (i + m <= n && s@.subrange(i as int, i + m) == pat@),
{
    if m > n - i {
        return false;
    }
    let mut k: usize = 0;
    while k < m
        invariant
            n == s@.len(),
            m == pat@.len(),
            i + m <= n,
            k <= m,
            forall|j: int| 0 <= j < k ==> s@[i + j] == pat@[j],
        decreases m - k,
    {
        if s.get_char(i + k) != pat.get_char(k) {
            proof {
                assert(s@.subrange(i as int, i + m)[k as int] == s@[i + k]);
            }
            return false;
        }
        k += 1;
    }
    proof {
        assert(s@.subrange(i as int, i + m) =~= pat@);
    }
    true
}

/// Replaces, left to right and without overlap, every occurrence of the
/// non-empty pattern `pat` in `s` by `to`.
pub fn replace_all(s: &str, pat: &str, to: &str) -> (r: String)
    requires
        pat@.len() > 0,
    ensures
        r@ == replaced(s@, pat@, to@),
{
    let n = s.unicode_len();
    let m = pat.unicode_len();
    let t = to.unicode_len();
    let mut out: Vec<char> = Vec::new();
    let mut i: usize = 0;
    proof {
        assert(s@.skip(0) =~= s@);
    }
    while i < n
        invariant
            n == s@.len(),
            m == pat@.len(),
            t == to@.len(),
            m > 0,
            i <= n,
            out@ + replaced(s@.skip(i as int), pat@, to@) == replaced(s@, pat@, to@),
        decreases n - i,
    {
        let ghost rem = s@.skip(i as int);
        let ghost out_before = out@;
        if starts_with_at(s, n, i, pat, m) {
            proof {
                assert(rem.subrange(0, m as int) =~= s@.subrange(i as int, i + m));
                assert(replaced(rem, pat@, to@) == to@ + replaced(rem.skip(m as int), pat@, to@));
                assert(rem.skip(m as int) =~= s@.skip(i + m));
            }
            let mut k: usize = 0;
            while k < t
                invariant
                    t == to@.len(),
                    k <= t,
                    out@ == out_before + to@.take(k as int),
                decreases t - k,
            {
                out.push(to.get_char(k));
                proof {
                    assert(out@ =~= out_before + to@.take(k + 1));
                }
                k += 1;
            }
            proof {
                assert(to@.take(t as int) =~= to@);
                assert((out_before + to@) + replaced(s@.skip(i + m), pat@, to@) =~= out_before + (
                to@ + replaced(s@.skip(i + m), pat@, to@)));
            }
            i += m;
        } else {
            proof {
                assert(rem[0] == s@[i as int]);
                assert(rem.skip(1) =~= s@.skip(i + 1));
                if rem.len() < m {
                    assert(replaced(rem, pat@, to@) == rem);
                    assert(replaced(rem.skip(1), pat@, to@) == rem.skip(1));
                    assert(seq![rem[0]] + rem.skip(1) =~= rem);
                } else {
                    assert(rem.subrange(0, m as int) =~= s@.subrange(i as int, i + m));
                    assert(replaced(rem, pat@, to@) == seq![rem[0]] + replaced(
                        rem.skip(1),
                        pat@,
                        to@,
                    ));
                }
            }
            out.push(s.get_char(i));
            proof {
                assert((out_before + seq![s@[i as int]]) + replaced(s@.skip(i + 1), pat@, to@)
                    =~= out_before + (seq![s@[i as int]] + replaced(s@.skip(i + 1), pat@, to@)));
            }
            i += 1;
        }
    }
    proof {
        assert(replaced(s@.skip(n as int), pat@, to@) =~= s@.skip(n as int));
        assert(out@ + s@.skip(n as int) =~= out@);
    }
    chars_to_string(&out)
}

/// The skill list joined with a comma and a space; an empty list joins to
/// the empty string.
pub open spec fn joined(parts: Seq<Seq<char>>) -> Seq<char>
    decreases parts.len(),
{
    if parts.len() == 0 {
        Seq::empty()
    } else if parts.len() == 1 {
        parts[0]
    } else {
        parts[0] + ", "@ + joined(parts.skip(1))
    }
}

proof fn lemma_joined_push(parts: Seq<Seq<char>>, x: Seq<char>)
    ensures
        joined(parts.push(x)) == if parts.len() == 0 {
            x
        } else {
            (joined(parts) + ", "@ + x)
        },
    decreases parts.len(),
{
    let p = parts.push(x);
    if parts.len() == 0 {
        assert(p[0] == x);
    } else if parts.len() == 1 {
        assert(p.skip(1) =~= seq![x]);
        assert(joined(p.skip(1)) == x);
        assert(p[0] == parts[0]);
    } else {
        assert(p.skip(1) =~= parts.skip(1).push(x));
        lemma_joined_push(parts.skip(1), x);
        assert(p[0] == parts[0]);
        assert(joined(p) == parts[0] + ", "@ + (joined(parts.skip(1)) + ", "@ + x));
        assert(parts[0] + ", "@ + (joined(parts.skip(1)) + ", "@ + x) =~= (parts[0] + ", "@
            + joined(parts.skip(1))) + ", "@ + x);
    }
}

/// Joins skills as the template's `{{skills}}` value.
pub fn join_skills(skills: &Vec<String>) -> (r: String)
    ensures
        r@ == joined(skills.deep_view()),
{
    let ghost all = skills.deep_view();
    let mut r = String::new();
    let mut i: usize = 0;
    while i < skills.len()
        invariant
            i <= skills.len(),
            all == skills.deep_view(),
            all.len() == skills.len(),
            r@ == joined(all.take(i as int)),
        decreases skills.len() - i,
    {
        if i > 0 {
            r.append(", ");
        }
        r.append(skills[i].as_str());
        proof {
            assert(all.take(i + 1) =~= all.take(i as int).push(all[i as int]));
            lemma_joined_push(all.take(i as int), all[i as int]);
            assert(all[i as int] == skills[i as int]@);
        }
        i += 1;
    }
    proof {
        assert(all.take(skills.len() as int) =~= all);
    }
    r
}

/// The character of a single decimal digit.
pub open spec fn digit_char(d: nat) -> char {
    if d == 0 {
        '0'
    } else if d == 1 {
        '1'
    } else if d == 2 {
        '2'
    } else if d == 3 {
        '3'
    } else if d == 4 {
        '4'
    } else if d == 5 {
        '5'
    } else if d == 6 {
        '6'
    } else if d == 7 {
        '7'
    } else if d == 8 {
        '8'
    } else {
        '9'
    }
}

/// The decimal digits of `n`, most significant first, without leading zeros
/// (except for `n == 0` itself).
pub open spec fn decimal(n: nat) -> Seq<char>
    decreases n,
{
    if n < 10 {
        seq![digit_char(n)]
    } else {
        decimal(n / 10).push(digit_char(n % 10))
    }
}

fn digit_str(d: u8) -> (r: &'static str)
    requires
        d < 10,
    ensures
        r@ == seq![digit_char(d as nat)],
{
    let r: &'static str = if d == 0 {
        "0"
    } else if d == 1 {
        "1"
    } else if d == 2 {
        "2"
    } else if d == 3 {
        "3"
    } else if d == 4 {
        "4"
    } else if d == 5 {
        "5"
    } else if d == 6 {
        "6"
    } else if d == 7 {
        "7"
    } else if d == 8 {
        "8"
    } else {
        "9"
    };
    proof {
        reveal_strlit("0");
        reveal_strlit("1");
        reveal_strlit("2");
        reveal_strlit("3");
        reveal_strlit("4");
        reveal_strlit("5");
        reveal_strlit("6");
        reveal_strlit("7");
        reveal_strlit("8");
        reveal_strlit("9");
        assert(r@ =~= seq![digit_char(d as nat)]);
    }
    r
}

/// Renders `n` in decimal, as the template's `{{experience_years}}` value.
pub fn u8_decimal(n: u8) -> (r: String)
    ensures
        r@ == decimal(n as nat),
    decreases n,
{
    if n < 10 {
        String::from_str(digit_str(n))
    } else {
        let mut s = u8_decimal(n / 10);
        s.append(digit_str(n % 10));
        s
    }
}

/// The value substituted for an optional social link: the stored text, or
/// the fallback `N/A` when absent.
pub open spec fn opt_text(o: Option<String>) -> Seq<char> {
    match o {
        Option::Some(s) => s@,
        Option::None => "N/A"@,
    }
}

/// Template text with every recognized placeholder substituted, in a fixed
/// order; unrecognized tokens stay verbatim.
pub open spec fn rendered_text(s: Seq<char>, p: &Profile) -> Seq<char> {
    let s1 = replaced(s, "{{name}}"@, p.name@);
    let s2 = replaced(s1, "{{email}}"@, p.email@);
    let s3 = replaced(s2, "{{phone}}"@, p.phone@);
    let s4 = replaced(s3, "{{title}}"@, p.title@);
    let s5 = replaced(s4, "{{summary}}"@, p.summary@);
    let s6 = replaced(s5, "{{skills}}"@, joined(p.skills.deep_view()));
    let s7 = replaced(s6, "{{experience_years}}"@, decimal(p.experience_years as nat));
    let s8 = replaced(s7, "{{linkedin}}"@, opt_text(p.linkedin));
    replaced(s8, "{{github}}"@, opt_text(p.github))
}

/// The rendered subject: the subject template with every recognized
/// placeholder substituted.
pub open spec fn rendered_subject(t: &EmailTemplate, p: &Profile) -> Seq<char> {
    rendered_text(t.subject@, p)
}

/// The rendered body: the body template with every recognized placeholder
/// substituted.
pub open spec fn rendered_body(t: &EmailTemplate, p: &Profile) -> Seq<char> {
    rendered_text(t.body@, p)
}

/// Text in which no recognized placeholder token occurs — the shape of
/// rendered output whose profile values introduced no token text.
pub open spec fn token_free(s: Seq<char>) -> bool {
    &&& !has_token(s, "{{name}}"@)
    &&& !has_token(s, "{{email}}"@)
    &&& !has_token(s, "{{phone}}"@)
    &&& !has_token(s, "{{title}}"@)
    &&& !has_token(s, "{{summary}}"@)
    &&& !has_token(s, "{{skills}}"@)
    &&& !has_token(s, "{{experience_years}}"@)
    &&& !has_token(s, "{{linkedin}}"@)
    &&& !has_token(s, "{{github}}"@)
}

/// Law: rendering is idempotent — template text in which no recognized
/// token remains, such as rendered output whose substituted values carried
/// no token text, renders to itself, whatever the profile.
pub proof fn lemma_render_idempotent(s: Seq<char>, p: &Profile)
    requires
        token_free(s),
    ensures
        rendered_text(s, p) == s,
{
    reveal_strlit("{{name}}");
    reveal_strlit("{{email}}");
    reveal_strlit("{{phone}}");
    reveal_strlit("{{title}}");
    reveal_strlit("{{summary}}");
    reveal_strlit("{{skills}}");
    reveal_strlit("{{experience_years}}");
    reveal_strlit("{{linkedin}}");
    reveal_strlit("{{github}}");
    lemma_replaced_token_free(s, "{{name}}"@, p.name@);
    lemma_replaced_token_free(s, "{{email}}"@, p.email@);
    lemma_replaced_token_free(s, "{{phone}}"@, p.phone@);
    lemma_replaced_token_free(s, "{{title}}"@, p.title@);
    lemma_replaced_token_free(s, "{{summary}}"@, p.summary@);
    lemma_replaced_token_free(s, "{{skills}}"@, joined(p.skills.deep_view()));
    lemma_replaced_token_free(s, "{{experience_years}}"@, decimal(p.experience_years as nat));
    lemma_replaced_token_free(s, "{{linkedin}}"@, opt_text(p.linkedin));
    lemma_replaced_token_free(s, "{{github}}"@, opt_text(p.github));
}

fn opt_value(o: &Option<String>) -> (r: String)
    ensures
        r@ == opt_text(*o),
{
    match o {
        Option::Some(s) => s.clone(),
        Option::None => String::from_str("N/A"),
    }
}

fn apply_tokens(
    text: &str,
    p: &Profile,
    skills: &String,
    years: &String,
    linkedin: &String,
    github: &String,
) -> (r: String)
    requires
        skills@ == joined(p.skills.deep_view()),
        years@ == decimal(p.experience_years as nat),
        linkedin@ == opt_text(p.linkedin),
        github@ == opt_text(p.github),
    ensures
        r@ == rendered_text(text@, p),
{
    proof {
        reveal_strlit("{{name}}");
        reveal_strlit("{{email}}");
        reveal_strlit("{{phone}}");
        reveal_strlit("{{title}}");
        reveal_strlit("{{summary}}");
        reveal_strlit("{{skills}}");
        reveal_strlit("{{experience_years}}");
        reveal_strlit("{{linkedin}}");
        reveal_strlit("{{github}}");
    }
    let r = replace_all(text, "{{name}}", p.name.as_str());
    let r = replace_all(r.as_str(), "{{email}}", p.email.as_str());
    let r = replace_all(r.as_str(), "{{phone}}", p.phone.as_str());
    let r = replace_all(r.as_str(), "{{title}}", p.title.as_str());
    let r = replace_all(r.as_str(), "{{summary}}", p.summary.as_str());
    let r = replace_all(r.as_str(), "{{skills}}", skills.as_str());
    let r = replace_all(r.as_str(), "{{experience_years}}", years.as_str());
    let r = replace_all(r.as_str(), "{{linkedin}}", linkedin.as_str());
    let r = replace_all(r.as_str(), "{{github}}", github.as_str());
    r
}

/// Merges the profile into the template once per run: the rendered subject
/// and body, each with every recognized placeholder substituted and
/// unrecognized tokens left verbatim.
pub fn build_email(config: &Config) -> (r: (String, String))
    ensures
        r.0@ == rendered_subject(&config.template, &config.profile),
        r.1@ == rendered_body(&config.template, &config.profile),
{
    let p = &config.profile;
    let t = &config.template;

    let skills = join_skills(&p.skills);
    let years = u8_decimal(p.experience_years);
    let linkedin = opt_value(&p.linkedin);
    let github = opt_value(&p.github);

    let subj = apply_tokens(t.subject.as_str(), p, &skills, &years, &linkedin, &github);
    let body = apply_tokens(t.body.as_str(), p, &skills, &years, &linkedin, &github);

    (subj, body)
}

} // verus!
