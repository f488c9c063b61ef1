//! The self-contained HTML viewer: the page template with its stylesheet
//! and script inlined, and the profiles and diff embedded as Base64 JSON.

use vstd::prelude::*;
use vstd::utf8::encode_utf8;
use base64::engine::general_purpose::STANDARD as BASE64;
use base64::Engine;
use crate::output::encoding::{
    base64_decoding, base64_encoding, base64_len, is_base64_char, lemma_base64_alphabet,
    lemma_base64_len, lemma_base64_roundtrip,
};
use crate::text::{chars_of, push_char, push_str};

verus! {

/// `rep` before every character of `s` and once at the end: what replacing
/// the empty pattern gives.
pub open spec fn interleave(s: Seq<char>, rep: Seq<char>) -> Seq<char>
    decreases s.len(),
{
    if s.len() == 0 {
        rep
    } else {
        rep + seq![s[0]] + interleave(s.drop_first(), rep)
    }
}

/// Replaces every non-overlapping occurrence of `pat`, left to right; the
/// empty pattern matches before every character and at the end.
pub open spec fn replace_all(s: Seq<char>, pat: Seq<char>, rep: Seq<char>) -> Seq<char>
    decreases s.len(),
{
    if pat.len() == 0 {
        interleave(s, rep)
    } else if s.len() < pat.len() {
        s
    } else if s.subrange(0, pat.len() as int) == pat {
        rep + replace_all(s.subrange(pat.len() as int, s.len() as int), pat, rep)
    } else {
        seq![s[0]] + replace_all(s.drop_first(), pat, rep)
    }
}

/// Away from a match, replacing starts with the first character.
proof fn lemma_replace_step(s: Seq<char>, pat: Seq<char>, rep: Seq<char>)
    requires
        s.len() > 0,
        pat.len() > 0,
        !(s.len() >= pat.len() && s.subrange(0, pat.len() as int) == pat),
    ensures
        replace_all(s, pat, rep) == seq![s[0]] + replace_all(s.drop_first(), pat, rep),
{
    if s.len() < pat.len() {
        assert(s =~= seq![s[0]] + s.drop_first());
    }
}

/// Replacing the empty pattern: `rep` before every character and at the end.
fn replace_empty(s: &str, rep: &str) -> (r: String)
    ensures
        r@ == interleave(s@, rep@),
{
    let sv = chars_of(s);
    let n = sv.len();
    let mut out = String::new();
    let mut i: usize = 0;
    assert(sv@.subrange(0, n as int) =~= sv@);
    while i < n
        invariant
            sv@ == s@,
            n == sv@.len(),
            i <= n,
            out@ + interleave(sv@.subrange(i as int, n as int), rep@) == interleave(s@, rep@),
        decreases n - i,
    {
        let ghost rest = sv@.subrange(i as int, n as int);
        assert(rest.drop_first() =~= sv@.subrange(i + 1, n as int));
        assert(rest[0] == sv@[i as int]);
        push_str(&mut out, rep);
        push_char(&mut out, sv[i]);
        i = i + 1;
    }
    assert(sv@.subrange(n as int, n as int) =~= Seq::<char>::empty());
    push_str(&mut out, rep);
    out
}

/// `str::replace`: every non-overlapping occurrence of `pat`, left to right,
/// replaced by `rep`.
pub fn replace(s: &str, pat: &str, rep: &str) -> (r: String)
    ensures
        r@ == replace_all(s@, pat@, rep@),
{
    if pat.is_empty() {
        return replace_empty(s, rep);
    }
    let sv = chars_of(s);
    let pv = chars_of(pat);
    let n = sv.len();
    let m = pv.len();
    let mut out = String::new();
    let mut i: usize = 0;
    assert(sv@.subrange(0, n as int) =~= sv@);
    assert(out@ + replace_all(sv@, pv@, rep@) =~= replace_all(sv@, pv@, rep@));
    while i < n
        invariant
            sv@ == s@,
            pv@ == pat@,
            n == sv@.len(),
            m == pv@.len(),
            m > 0,
            i <= n,
            out@ + replace_all(sv@.subrange(i as int, n as int), pv@, rep@) == replace_all(s@, pat@, rep@),
        decreases n - i,
    {
        let ghost rest = sv@.subrange(i as int, n as int);
        let mut matched = m <= n - i;
        let mut j: usize = 0;
        while matched && j < m
            invariant
                sv@ == s@,
                pv@ == pat@,
                n == sv@.len(),
                m == pv@.len(),
                i < n,
                j <= m,
                matched ==> i + m <= n,
                matched ==> forall|t: int| 0 <= t < j ==> sv@[i + t] == pv@[t],
                !matched ==> !(rest.len() >= m && rest.subrange(0, m as int) == pv@),
                rest == sv@.subrange(i as int, n as int),
            decreases m - j,
        {
            if sv[i + j] != pv[j] {
                matched = false;
                proof {
                    if rest.len() >= m && rest.subrange(0, m as int) == pv@ {
                        assert(rest.subrange(0, m as int)[j as int] == sv@[i + j]);
                    }
                }
            }
            j = j + 1;
        }
        if matched {
            assert(rest.subrange(0, m as int) =~= pv@);
            assert(rest.subrange(m as int, rest.len() as int) =~= sv@.subrange(i + m, n as int));
            push_str(&mut out, rep);
            i = i + m;
        } else {
            proof {
                lemma_replace_step(rest, pv@, rep@);
                assert(rest.drop_first() =~= sv@.subrange(i + 1, n as int));
            }
            push_char(&mut out, sv[i]);
            i = i + 1;
        }
    }
    assert(sv@.subrange(n as int, n as int) =~= Seq::<char>::empty());
    out
}

/// Padded standard Base64 of a text's UTF-8 bytes.
pub open spec fn base64_text(text: Seq<char>) -> Seq<char> {
    base64_encoding(encode_utf8(text))
}

/// The encoding of a text fits in memory: its length is at most `isize::MAX`.
pub open spec fn encodable(text: Seq<char>) -> bool {
    base64_len(encode_utf8(text).len()) <= isize::MAX
}

/// Whether the encoding of `text` fits in memory.
pub fn fits_base64(text: &str) -> (r: bool)
    ensures
        r == encodable(text@),
{
    let n = text.as_bytes().len() as u128;
    let len = 4 * (n / 3) + (if n % 3 > 0 { 4 } else { 0 });
    len <= isize::MAX as u128
}

/// `base64`: the `STANDARD` engine's `encode` of the text's bytes, which is
/// padded standard Base64 (RFC 4648, section 4). The engine panics when the
/// encoded length overflows `usize` or cannot be allocated, which
/// `encodable` rules out.
#[verifier::external_body]
fn base64_encode(text: &str) -> (r: String)
    requires
        encodable(text@),
    ensures
        r@ == base64_text(text@),
{
    BASE64.encode(text.as_bytes())
}

/// `pat` occurs in `s`.
pub open spec fn occurs_in(pat: Seq<char>, s: Seq<char>) -> bool {
    exists|i: int| 0 <= i && i + pat.len() <= s.len() && #[trigger] s.subrange(i, i + pat.len()) == pat
}

/// Encodes a JSON string as Base64 for safe inline HTML injection: the
/// encoding holds only characters of the Base64 alphabet and `=`, so no
/// `</script>` in the JSON can end the script that carries it, and decoding
/// it gives the JSON's bytes back.
pub fn encode_json(json: &str) -> (r: String)
    requires
        encodable(json@),
    ensures
        r@ == base64_text(json@),
        r@.len() == base64_len(encode_utf8(json@).len()),
        forall|i: int| 0 <= i < r@.len() ==> is_base64_char(#[trigger] r@[i]),
        forall|i: int| 0 <= i < r@.len() ==> #[trigger] r@[i] != '<',
        !occurs_in("</script>"@, r@),
        base64_decoding(r@) == encode_utf8(json@),
{
    let r = base64_encode(json);
    proof {
        let b = encode_utf8(json@);
        lemma_base64_len(b);
        lemma_base64_alphabet(b);
        lemma_base64_roundtrip(b);
        reveal_strlit("</script>");
        assert forall|i: int| 0 <= i < r@.len() implies #[trigger] r@[i] != '<' by {
            assert(is_base64_char(r@[i]));
        }
        assert forall|i: int| 0 <= i && i + 9 <= r@.len() implies #[trigger] r@.subrange(i, i + 9)
            != "</script>"@ by {
            assert(r@.subrange(i, i + 9)[0] == r@[i]);
            assert(is_base64_char(r@[i]));
        }
    }
    r
}

/// The page template and the stylesheet and script it links to.
pub struct ViewerAssets {
    pub html: String,
    pub css: String,
    pub js: String,
}

/// Template slot for the first profile's data.
pub open spec fn profile_a_slot() -> Seq<char> {
    "/* PROFILE_DATA_B64 */"@
}

/// Template slot for the second profile's data.
pub open spec fn profile_b_slot() -> Seq<char> {
    "/* PROFILE_B_DATA_B64 */"@
}

/// Template slot for the diff data.
pub open spec fn diff_slot() -> Seq<char> {
    "/* DIFF_DATA_B64 */"@
}

/// Template slot for the flamegraph.
pub open spec fn flamegraph_slot() -> Seq<char> {
    "/* FLAMEGRAPH_SVG */"@
}

/// The stylesheet link that the inlined stylesheet replaces.
pub open spec fn css_link() -> Seq<char> {
    "<link rel=\"stylesheet\" href=\"viewer.css\">"@
}

/// The script tag that the inlined script replaces.
pub open spec fn js_tag() -> Seq<char> {
    "<script src=\"viewer.js\"></script>"@
}

/// An optional text, empty when absent.
pub open spec fn text_or_empty(o: Option<&str>) -> Seq<char> {
    match o {
        Some(s) => s@,
        None => seq![],
    }
}

/// The page: data slots filled in order, then the stylesheet and the
/// script inlined.
pub open spec fn page(
    assets: ViewerAssets,
    a: Seq<char>,
    b: Seq<char>,
    d: Seq<char>,
    svg: Seq<char>,
) -> Seq<char> {
    let h1 = replace_all(assets.html@, profile_a_slot(), a);
    let h2 = replace_all(h1, profile_b_slot(), b);
    let h3 = replace_all(h2, diff_slot(), d);
    let h4 = replace_all(h3, flamegraph_slot(), svg);
    let h5 = replace_all(h4, css_link(), "<style>"@ + assets.css@ + "</style>"@);
    replace_all(h5, js_tag(), "<script>"@ + assets.js@ + "</script>"@)
}

fn wrapped(open: &str, body: &str, close: &str) -> (r: String)
    ensures
        r@ == open@ + body@ + close@,
{
    let mut r = String::new();
    push_str(&mut r, open);
    push_str(&mut r, body);
    push_str(&mut r, close);
    r
}

fn nonempty_literals()
    ensures
        profile_a_slot().len() > 0,
        profile_b_slot().len() > 0,
        diff_slot().len() > 0,
        flamegraph_slot().len() > 0,
        css_link().len() > 0,
        js_tag().len() > 0,
{
    proof {
        reveal_strlit("/* PROFILE_DATA_B64 */");
        reveal_strlit("/* PROFILE_B_DATA_B64 */");
        reveal_strlit("/* DIFF_DATA_B64 */");
        reveal_strlit("/* FLAMEGRAPH_SVG */");
        reveal_strlit("<link rel=\"stylesheet\" href=\"viewer.css\">");
        reveal_strlit("<script src=\"viewer.js\"></script>");
    }
}

/// Builds the final, self-contained HTML from the template: injects the
/// Base64 JSON blobs and the optional flamegraph, then inlines the
/// stylesheet and the script.
pub fn build_html(
    assets: &ViewerAssets,
    profile_a_b64: &str,
    profile_b_b64: Option<&str>,
    diff_b64: Option<&str>,
    flamegraph_svg: Option<&str>,
) -> (html: String)
    ensures
        html@ == page(
            *assets,
            profile_a_b64@,
            text_or_empty(profile_b_b64),
            text_or_empty(diff_b64),
            text_or_empty(flamegraph_svg),
        ),
{
    nonempty_literals();
    let b = match profile_b_b64 {
        Some(s) => s,
        None => "",
    };
    let d = match diff_b64 {
        Some(s) => s,
        None => "",
    };
    let svg = match flamegraph_svg {
        Some(s) => s,
        None => "",
    };
    proof {
        reveal_strlit("");
    }
    assert(b@ == text_or_empty(profile_b_b64));
    assert(d@ == text_or_empty(diff_b64));
    assert(svg@ == text_or_empty(flamegraph_svg));
    let h1 = replace(assets.html.as_str(), "/* PROFILE_DATA_B64 */", profile_a_b64);
    let h2 = replace(h1.as_str(), "/* PROFILE_B_DATA_B64 */", b);
    let h3 = replace(h2.as_str(), "/* DIFF_DATA_B64 */", d);
    let h4 = replace(h3.as_str(), "/* FLAMEGRAPH_SVG */", svg);
    let style = wrapped("<style>", assets.css.as_str(), "</style>");
    let h5 = replace(h4.as_str(), "<link rel=\"stylesheet\" href=\"viewer.css\">", style.as_str());
    let script = wrapped("<script>", assets.js.as_str(), "</script>");
    replace(h5.as_str(), "<script src=\"viewer.js\"></script>", script.as_str())
}

/// The viewer page for one profile, from its JSON.
pub fn viewer_html(assets: &ViewerAssets, profile_json: &str, flamegraph_svg: Option<&str>) -> (html: String)
    requires
        encodable(profile_json@),
    ensures
        html@ == page(*assets, base64_text(profile_json@), seq![], seq![], text_or_empty(flamegraph_svg)),
{
    let a = encode_json(profile_json);
    build_html(assets, a.as_str(), None, None, flamegraph_svg)
}

/// The viewer page for a comparison, from both profiles' JSON and the
/// report's JSON.
pub fn diff_viewer_html(
    assets: &ViewerAssets,
    profile_a_json: &str,
    profile_b_json: &str,
    diff_json: &str,
    flamegraph_svg: Option<&str>,
) -> (html: String)
    requires
        encodable(profile_a_json@),
        encodable(profile_b_json@),
        encodable(diff_json@),
    ensures
        html@ == page(
            *assets,
            base64_text(profile_a_json@),
            base64_text(profile_b_json@),
            base64_text(diff_json@),
            text_or_empty(flamegraph_svg),
        ),
{
    let a = encode_json(profile_a_json);
    let b = encode_json(profile_b_json);
    let d = encode_json(diff_json);
    build_html(assets, a.as_str(), Some(b.as_str()), Some(d.as_str()), flamegraph_svg)
}


/// `c` is nowhere in `s`.
pub open spec fn lacks(s: Seq<char>, c: char) -> bool {
    forall|i: int| 0 <= i < s.len() ==> #[trigger] s[i] != c
}

/// Replacing a pattern that never occurs changes nothing.
proof fn lemma_replace_absent(s: Seq<char>, pat: Seq<char>, rep: Seq<char>)
    requires
        pat.len() > 0,
        forall|i: int| 0 <= i && i + pat.len() <= s.len() ==> #[trigger] s.subrange(i, i + pat.len()) != pat,
    ensures
        replace_all(s, pat, rep) == s,
    decreases s.len(),
{
    if s.len() >= pat.len() {
        let t = s.drop_first();
        assert forall|i: int| 0 <= i && i + pat.len() <= t.len() implies #[trigger] t.subrange(i, i + pat.len()) != pat by {
            assert(t.subrange(i, i + pat.len()) =~= s.subrange(i + 1, i + 1 + pat.len()));
        }
        let z: int = 0;
        assert(s.subrange(z, z + pat.len()) != pat);
        assert(s.subrange(z, z + pat.len()) =~= s.subrange(0, pat.len() as int));
        lemma_replace_absent(t, pat, rep);
        assert(seq![s[0]] + t =~= s);
    }
}

/// A pattern starting with a character that `s` lacks never occurs in `s`.
proof fn lemma_absent_by_first(s: Seq<char>, pat: Seq<char>)
    requires
        pat.len() > 0,
        lacks(s, pat[0]),
    ensures
        forall|i: int| 0 <= i && i + pat.len() <= s.len() ==> #[trigger] s.subrange(i, i + pat.len()) != pat,
{
    assert forall|i: int| 0 <= i && i + pat.len() <= s.len() implies #[trigger] s.subrange(i, i + pat.len()) != pat by {
        assert(s.subrange(i, i + pat.len())[0] == s[i]);
    }
}

/// A pattern that starts and ends with `/`, in a text whose only `/` are at
/// `p` and `p + 19`, never occurs there unless it is 20 long.
proof fn lemma_absent_by_ends(s: Seq<char>, pat: Seq<char>, p: int)
    requires
        pat.len() >= 2,
        pat.len() != 20,
        pat[0] == '/',
        pat[pat.len() - 1] == '/',
        forall|j: int| 0 <= j < s.len() && #[trigger] s[j] == '/' ==> j == p || j == p + 19,
    ensures
        forall|i: int| 0 <= i && i + pat.len() <= s.len() ==> #[trigger] s.subrange(i, i + pat.len()) != pat,
{
    assert forall|i: int| 0 <= i && i + pat.len() <= s.len() implies #[trigger] s.subrange(i, i + pat.len()) != pat by {
        let w = s.subrange(i, i + pat.len());
        assert(w[0] == s[i]);
        assert(w[pat.len() - 1] == s[i + pat.len() - 1]);
    }
}

/// Replacing the one occurrence of a pattern, between texts that lack its
/// first character, puts the replacement in its place.
proof fn lemma_replace_single(pre: Seq<char>, pat: Seq<char>, post: Seq<char>, rep: Seq<char>)
    requires
        pat.len() > 0,
        lacks(pre, pat[0]),
        lacks(post, pat[0]),
    ensures
        replace_all(pre + pat + post, pat, rep) == pre + rep + post,
    decreases pre.len(),
{
    let s = pre + pat + post;
    if pre.len() == 0 {
        assert(s =~= pat + post);
        assert(s.subrange(0, pat.len() as int) =~= pat);
        assert(s.subrange(pat.len() as int, s.len() as int) =~= post);
        lemma_absent_by_first(post, pat);
        lemma_replace_absent(post, pat, rep);
        assert(pre + rep + post =~= rep + post);
    } else {
        assert(s.subrange(0, pat.len() as int)[0] == pre[0]);
        let p2 = pre.drop_first();
        assert(s.drop_first() =~= p2 + pat + post);
        lemma_replace_single(p2, pat, post, rep);
        assert(pre + rep + post =~= seq![s[0]] + (p2 + rep + post));
    }
}

/// The viewer fills the flamegraph slot with the flamegraph, and with the
/// empty text when there is none: a template that holds the slot once,
/// between texts with no `/` or `<`, gives exactly those texts around the
/// flamegraph (one with no `/` or `<`), whatever the data.
pub proof fn lemma_flamegraph_slot_filled(
    assets: ViewerAssets,
    pre: Seq<char>,
    post: Seq<char>,
    a: Seq<char>,
    b: Seq<char>,
    d: Seq<char>,
    svg: Seq<char>,
)
    requires
        assets.html@ == pre + flamegraph_slot() + post,
        lacks(pre, '/') && lacks(pre, '<'),
        lacks(post, '/') && lacks(post, '<'),
        lacks(svg, '/') && lacks(svg, '<'),
    ensures
        page(assets, a, b, d, svg) == pre + svg + post,
        page(assets, a, b, d, seq![]) == pre + post,
{
    reveal_strlit("/* PROFILE_DATA_B64 */");
    reveal_strlit("/* PROFILE_B_DATA_B64 */");
    reveal_strlit("/* DIFF_DATA_B64 */");
    reveal_strlit("/* FLAMEGRAPH_SVG */");
    reveal_strlit("<link rel=\"stylesheet\" href=\"viewer.css\">");
    reveal_strlit("<script src=\"viewer.js\"></script>");
    let f = flamegraph_slot();
    let html = assets.html@;
    let p = pre.len() as int;
    assert(f.len() == 20);
    assert forall|x: int| 0 < x < 19 implies #[trigger] f[x] != '/' by {}
    assert forall|j: int| 0 <= j < html.len() && #[trigger] html[j] == '/' implies j == p || j == p + 19 by {
        if j < p {
            assert(html[j] == pre[j]);
        } else if j < p + 20 {
            assert(html[j] == f[j - p]);
        } else {
            assert(html[j] == post[j - p - 20]);
        }
    }
    lemma_absent_by_ends(html, profile_a_slot(), p);
    lemma_replace_absent(html, profile_a_slot(), a);
    lemma_absent_by_ends(html, profile_b_slot(), p);
    lemma_replace_absent(html, profile_b_slot(), b);
    lemma_absent_by_ends(html, diff_slot(), p);
    lemma_replace_absent(html, diff_slot(), d);
    lemma_fill_rest(assets, pre, post, svg);
    lemma_fill_rest(assets, pre, post, seq![]);
    assert(pre + seq![] + post =~= pre + post);
}

/// With the data slots absent, the page is the template with the
/// flamegraph slot replaced and nothing else to inline.
proof fn lemma_fill_rest(assets: ViewerAssets, pre: Seq<char>, post: Seq<char>, svg: Seq<char>)
    requires
        lacks(pre, '/') && lacks(pre, '<'),
        lacks(post, '/') && lacks(post, '<'),
        lacks(svg, '/') && lacks(svg, '<'),
        flamegraph_slot().len() > 0 && flamegraph_slot()[0] == '/',
        css_link().len() > 0 && css_link()[0] == '<',
        js_tag().len() > 0 && js_tag()[0] == '<',
    ensures
        replace_all(
            replace_all(
                replace_all(pre + flamegraph_slot() + post, flamegraph_slot(), svg),
                css_link(),
                "<style>"@ + assets.css@ + "</style>"@,
            ),
            js_tag(),
            "<script>"@ + assets.js@ + "</script>"@,
        ) == pre + svg + post,
{
    lemma_replace_single(pre, flamegraph_slot(), post, svg);
    let h4 = pre + svg + post;
    assert forall|i: int| 0 <= i < h4.len() implies #[trigger] h4[i] != '<' by {
        if i < pre.len() {
            assert(h4[i] == pre[i]);
        } else if i < pre.len() + svg.len() {
            assert(h4[i] == svg[i - pre.len()]);
        } else {
            assert(h4[i] == post[i - pre.len() - svg.len()]);
        }
    }
    lemma_absent_by_first(h4, css_link());
    lemma_replace_absent(h4, css_link(), "<style>"@ + assets.css@ + "</style>"@);
    lemma_absent_by_first(h4, js_tag());
    lemma_replace_absent(h4, js_tag(), "<script>"@ + assets.js@ + "</script>"@);
}

} // verus!
