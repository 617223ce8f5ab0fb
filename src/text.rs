use vstd::prelude::*;

verus! {

/// What `deunicode::deunicode` makes of a text.
pub uninterp spec fn transliterated(s: Seq<char>) -> Seq<char>;

pub open spec fn is_ascii_char(c: char) -> bool {
    (c as u32) < 128
}

pub open spec fn all_ascii(s: Seq<char>) -> bool {
    forall|i: int| 0 <= i < s.len() ==> is_ascii_char(#[trigger] s[i])
}

/// The characters with the Unicode `White_Space` property, which `str::trim` removes.
pub open spec fn is_space(c: char) -> bool {
    let u = c as u32;
    (0x09 <= u <= 0x0d) || u == 0x20 || u == 0x85 || u == 0xa0 || u == 0x1680 || (0x2000 <= u
        <= 0x200a) || u == 0x2028 || u == 0x2029 || u == 0x202f || u == 0x205f || u == 0x3000
}

pub open spec fn trim_start(s: Seq<char>) -> Seq<char>
    decreases s.len(),
{
    if s.len() > 0 && is_space(s[0]) {
        trim_start(s.drop_first())
    } else {
        s
    }
}

pub open spec fn trim_end(s: Seq<char>) -> Seq<char>
    decreases s.len(),
{
    if s.len() > 0 && is_space(s.last()) {
        trim_end(s.drop_last())
    } else {
        s
    }
}

/// `s` without leading and trailing whitespace.
pub open spec fn trim(s: Seq<char>) -> Seq<char> {
    trim_end(trim_start(s))
}

/// `s` with every CR LF pair, read from the left, replaced by a single LF.
pub open spec fn crlf_to_lf(s: Seq<char>) -> Seq<char>
    decreases s.len(),
{
    if s.len() < 2 {
        s
    } else if s[0] == '\r' && s[1] == '\n' {
        seq!['\n'] + crlf_to_lf(s.subrange(2, s.len() as int))
    } else {
        seq![s[0]] + crlf_to_lf(s.drop_first())
    }
}

pub open spec fn has_crlf(s: Seq<char>) -> bool {
    exists|i: int| 0 <= i < s.len() - 1 && #[trigger] s[i] == '\r' && s[i + 1] == '\n'
}

pub open spec fn is_trimmed(s: Seq<char>) -> bool {
    s.len() == 0 || (!is_space(s[0]) && !is_space(s.last()))
}

/// The transliteration step: ASCII text is kept as it is (which is also what
/// `deunicode` does with it), anything else is transliterated.
pub open spec fn ascii_form(s: Seq<char>) -> Seq<char> {
    if all_ascii(s) {
        s
    } else {
        transliterated(s)
    }
}

/// The canonical form in which fixtures and solver output are compared:
/// transliterated to ASCII, trimmed, with CR LF line ends turned into LF.
pub open spec fn normalized(s: Seq<char>) -> Seq<char> {
    crlf_to_lf(trim(ascii_form(s)))
}

/// Relies on `deunicode::deunicode`: its result is ASCII, and it is a function of the
/// text alone.
#[verifier::external_body]
fn transliterate(s: &str) -> (r: String)
    ensures
        r@ == transliterated(s@),
        all_ascii(r@),
{
    deunicode::deunicode(s)
}

/// Relies on `str::chars`, collected into a vector.
#[verifier::external_body]
pub(crate) fn chars_of(s: &str) -> (r: Vec<char>)
    ensures
        r@ == s@,
{
    s.chars().collect()
}

/// Relies on `String`'s `FromIterator<&char>`.
#[verifier::external_body]
pub(crate) fn string_of(v: &Vec<char>) -> (r: String)
    ensures
        r@ == v@,
{
    v.iter().collect()
}

fn is_ascii_chars(v: &Vec<char>) -> (r: bool)
    ensures
        r == all_ascii(v@),
{
    let mut i: usize = 0;
    while i < v.len()
        invariant
            i <= v.len(),
            forall|k: int| 0 <= k < i ==> is_ascii_char(#[trigger] v@[k]),
        decreases v.len() - i,
    {
        if (v[i] as u32) >= 128 {
            return false;
        }
        i = i + 1;
    }
    true
}

pub fn is_space_char(c: char) -> (r: bool)
    ensures
        r == is_space(c),
{
    let u = c as u32;
    (0x09 <= u && u <= 0x0d) || u == 0x20 || u == 0x85 || u == 0xa0 || u == 0x1680 || (0x2000 <= u
        && u <= 0x200a) || u == 0x2028 || u == 0x2029 || u == 0x202f || u == 0x205f || u == 0x3000
}

/// `v` without leading and trailing whitespace.
pub fn trim_chars(v: &Vec<char>) -> (r: Vec<char>)
    ensures
        r@ == trim(v@),
{
    let n = v.len();
    let mut i: usize = 0;
    assert(v@.subrange(0, n as int) =~= v@);
    while i < n && is_space_char(v[i])
        invariant
            i <= n == v.len(),
            trim_start(v@) == trim_start(v@.subrange(i as int, n as int)),
        decreases n - i,
    {
        assert(v@.subrange(i as int, n as int).drop_first() =~= v@.subrange(i + 1, n as int));
        i = i + 1;
    }
    let mut j: usize = n;
    while j > i && is_space_char(v[j - 1])
        invariant
            i <= j <= n == v.len(),
            trim_start(v@) == v@.subrange(i as int, n as int),
            trim(v@) == trim_end(v@.subrange(i as int, j as int)),
        decreases j - i,
    {
        assert(v@.subrange(i as int, j as int).drop_last() =~= v@.subrange(i as int, j - 1));
        j = j - 1;
    }
    let mut r: Vec<char> = Vec::new();
    let mut k: usize = i;
    while k < j
        invariant
            i <= k <= j <= n == v.len(),
            r@ == v@.subrange(i as int, k as int),
        decreases j - k,
    {
        r.push(v[k]);
        assert(r@ =~= v@.subrange(i as int, k + 1));
        k = k + 1;
    }
    r
}

/// `v` with every CR LF pair replaced by a single LF.
pub fn crlf_to_lf_chars(v: &Vec<char>) -> (r: Vec<char>)
    ensures
        r@ == crlf_to_lf(v@),
{
    let n = v.len();
    let mut r: Vec<char> = Vec::new();
    let mut i: usize = 0;
    assert(v@.subrange(0, n as int) =~= v@);
    while i < n
        invariant
            i <= n == v.len(),
            crlf_to_lf(v@) == r@ + crlf_to_lf(v@.subrange(i as int, n as int)),
        decreases n - i,
    {
        let ghost rest = v@.subrange(i as int, n as int);
        if i + 1 < n && v[i] == '\r' && v[i + 1] == '\n' {
            assert(rest.subrange(2, rest.len() as int) =~= v@.subrange(i + 2, n as int));
            r.push('\n');
            i = i + 2;
        } else {
            if i + 1 < n {
                assert(rest.drop_first() =~= v@.subrange(i + 1, n as int));
            } else {
                assert(v@.subrange(i + 1, n as int) =~= seq![]);
            }
            r.push(v[i]);
            i = i + 1;
        }
    }
    assert(v@.subrange(n as int, n as int) =~= seq![]);
    assert(r@ + seq![] =~= r@);
    r
}

/// Brings `text` into the form in which fixtures and solver output are compared.
///
/// The result is ASCII and trimmed; unless it still holds a CR LF pair (which happens only
/// where the text had a CR before a CR LF), normalizing it again changes nothing.
pub fn normalize(text: &str) -> (r: String)
    ensures
        r@ == normalized(text@),
        all_ascii(r@),
        is_trimmed(r@),
        !has_crlf(r@) ==> normalized(r@) == r@,
{
    let chars = chars_of(text);
    let ascii = if is_ascii_chars(&chars) {
        chars
    } else {
        let t = transliterate(text);
        chars_of(t.as_str())
    };
    let trimmed = trim_chars(&ascii);
    let lf = crlf_to_lf_chars(&trimmed);
    proof {
        let t = trim(ascii_form(text@));
        lemma_trim_keeps_ascii(ascii_form(text@));
        lemma_trim_is_trimmed(ascii_form(text@));
        lemma_crlf_keeps_ascii(t);
        lemma_crlf_keeps_trimmed(t);
        if !has_crlf(lf@) {
            normal_text_is_fixed(lf@);
        }
    }
    string_of(&lf)
}

proof fn lemma_trim_start_suffix(s: Seq<char>)
    ensures
        trim_start(s).len() <= s.len(),
        trim_start(s) =~= s.subrange(s.len() - trim_start(s).len(), s.len() as int),
        trim_start(s).len() > 0 ==> !is_space(trim_start(s)[0]),
    decreases s.len(),
{
    if s.len() > 0 && is_space(s[0]) {
        lemma_trim_start_suffix(s.drop_first());
    }
}

proof fn lemma_trim_end_prefix(s: Seq<char>)
    ensures
        trim_end(s).len() <= s.len(),
        trim_end(s) =~= s.subrange(0, trim_end(s).len() as int),
        trim_end(s).len() > 0 ==> !is_space(trim_end(s).last()),
    decreases s.len(),
{
    if s.len() > 0 && is_space(s.last()) {
        lemma_trim_end_prefix(s.drop_last());
    }
}

proof fn lemma_trim_keeps_ascii(s: Seq<char>)
    ensures
        all_ascii(s) ==> all_ascii(trim(s)),
{
    lemma_trim_start_suffix(s);
    lemma_trim_end_prefix(trim_start(s));
    let a = trim_start(s);
    let b = trim(s);
    if all_ascii(s) {
        assert forall|i: int| 0 <= i < b.len() implies is_ascii_char(#[trigger] b[i]) by {
            assert(b[i] == a[i]);
            assert(a[i] == s[s.len() - a.len() + i]);
        }
    }
}

proof fn lemma_trim_is_trimmed(s: Seq<char>)
    ensures
        is_trimmed(trim(s)),
{
    lemma_trim_start_suffix(s);
    lemma_trim_end_prefix(trim_start(s));
}

proof fn lemma_crlf_keeps_ascii(s: Seq<char>)
    ensures
        all_ascii(s) ==> all_ascii(crlf_to_lf(s)),
    decreases s.len(),
{
    if s.len() >= 2 && all_ascii(s) {
        if s[0] == '\r' && s[1] == '\n' {
            let rest = s.subrange(2, s.len() as int);
            assert(all_ascii(rest)) by {
                assert forall|i: int| 0 <= i < rest.len() implies is_ascii_char(#[trigger] rest[i]) by {
                    assert(rest[i] == s[i + 2]);
                }
            }
            lemma_crlf_keeps_ascii(rest);
            let r = seq!['\n'] + crlf_to_lf(rest);
            assert forall|i: int| 0 <= i < r.len() implies is_ascii_char(#[trigger] r[i]) by {
                if i > 0 {
                    assert(r[i] == crlf_to_lf(rest)[i - 1]);
                }
            }
        } else {
            let rest = s.drop_first();
            assert(all_ascii(rest)) by {
                assert forall|i: int| 0 <= i < rest.len() implies is_ascii_char(#[trigger] rest[i]) by {
                    assert(rest[i] == s[i + 1]);
                }
            }
            lemma_crlf_keeps_ascii(rest);
            let r = seq![s[0]] + crlf_to_lf(rest);
            assert forall|i: int| 0 <= i < r.len() implies is_ascii_char(#[trigger] r[i]) by {
                if i > 0 {
                    assert(r[i] == crlf_to_lf(rest)[i - 1]);
                } else {
                    assert(is_ascii_char(s[0]));
                }
            }
        }
    }
}

proof fn lemma_crlf_keeps_last(s: Seq<char>)
    requires
        s.len() > 0,
        s.last() != '\n',
    ensures
        crlf_to_lf(s).len() > 0,
        crlf_to_lf(s).last() == s.last(),
    decreases s.len(),
{
    if s.len() >= 2 {
        if s[0] == '\r' && s[1] == '\n' {
            let rest = s.subrange(2, s.len() as int);
            assert(rest.len() > 0);
            assert(rest.last() == s.last());
            lemma_crlf_keeps_last(rest);
        } else {
            let rest = s.drop_first();
            assert(rest.last() == s.last());
            lemma_crlf_keeps_last(rest);
        }
    }
}

proof fn lemma_crlf_keeps_trimmed(s: Seq<char>)
    requires
        is_trimmed(s),
    ensures
        is_trimmed(crlf_to_lf(s)),
{
    if s.len() > 0 {
        assert(is_space('\n'));
        assert(is_space('\r'));
        lemma_crlf_keeps_last(s);
        if s.len() >= 2 {
            assert(crlf_to_lf(s)[0] == s[0]);
        }
    }
}

proof fn lemma_crlf_without_pairs(s: Seq<char>)
    requires
        !has_crlf(s),
    ensures
        crlf_to_lf(s) == s,
    decreases s.len(),
{
    if s.len() >= 2 {
        assert(!(s[0] == '\r' && s[1] == '\n'));
        let rest = s.drop_first();
        assert(!has_crlf(rest)) by {
            if has_crlf(rest) {
                let i = choose|i: int| 0 <= i < rest.len() - 1 && #[trigger] rest[i] == '\r' && rest[i
                    + 1] == '\n';
                assert(s[i + 1] == '\r' && s[i + 2] == '\n');
            }
        }
        lemma_crlf_without_pairs(rest);
        assert(seq![s[0]] + rest =~= s);
    }
}

/// Text that is already ASCII, trimmed and free of CR LF pairs is left unchanged by
/// normalization.
pub proof fn normal_text_is_fixed(t: Seq<char>)
    requires
        all_ascii(t),
        is_trimmed(t),
        !has_crlf(t),
    ensures
        normalized(t) == t,
{
    if t.len() > 0 {
        assert(trim_start(t) == t);
        assert(trim_end(t) == t);
    }
    lemma_crlf_without_pairs(t);
}

} // verus!
