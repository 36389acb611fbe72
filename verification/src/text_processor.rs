//! Text processing around a translation request: before it, zero-width
//! characters are dropped and placeholders `[placeholder:NAME]` are taken
//! out and numbered; after it, the originals are put back.

use vstd::prelude::*;
use crate::text::{
    chars_of, string_from, push_all, occurs_at, occurs_at_exec, decimal, push_decimal, sub_chars,
    chars_equal_str,
};
use crate::markers::lemma_decimal_parses;

verus! {

/// The zero-width characters: space, non-joiner, joiner and the byte-order
/// mark.
pub open spec fn is_zero_width(c: char) -> bool {
    c == '\u{200B}' || c == '\u{200C}' || c == '\u{200D}' || c == '\u{FEFF}'
}

/// `s` without its zero-width characters.
pub open spec fn without_zero_width(s: Seq<char>) -> Seq<char>
    decreases s.len(),
{
    if s.len() == 0 {
        Seq::empty()
    } else if is_zero_width(s.last()) {
        without_zero_width(s.drop_last())
    } else {
        without_zero_width(s.drop_last()).push(s.last())
    }
}

/// A character of the class `[a-zA-Z0-9_]`.
pub open spec fn is_word_char(c: char) -> bool {
    ('a' <= c && c <= 'z') || ('A' <= c && c <= 'Z') || ('0' <= c && c <= '9') || c == '_'
}

/// `"[placeholder:"`, the front of a placeholder.
pub open spec fn placeholder_open() -> Seq<char> {
    seq!['[', 'p', 'l', 'a', 'c', 'e', 'h', 'o', 'l', 'd', 'e', 'r', ':']
}

/// The number of consecutive word characters of `s` from position `j`.
pub open spec fn word_run(s: Seq<char>, j: int) -> nat
    decreases s.len() - j,
{
    if 0 <= j < s.len() && is_word_char(s[j]) {
        1 + word_run(s, j + 1)
    } else {
        0
    }
}

/// Whether a placeholder `[placeholder:NAME]` (NAME one or more word
/// characters) starts at position `i` of `s`.
pub open spec fn placeholder_at(s: Seq<char>, i: int) -> bool {
    let e = i + 13 + word_run(s, i + 13);
    &&& occurs_at(s, i, placeholder_open())
    &&& word_run(s, i + 13) > 0
    &&& e < s.len()
    &&& s[e] == ']'
}

/// Whether `s` holds a match of `\[placeholder:([a-zA-Z0-9_]+)\]`.
pub open spec fn has_placeholder(s: Seq<char>) -> bool {
    exists|i: int| placeholder_at(s, i)
}

/// The length of the placeholder that starts `s`, or 0 if none does.
pub open spec fn token_len(s: Seq<char>) -> nat {
    if placeholder_at(s, 0) {
        (14 + word_run(s, 13)) as nat
    } else {
        0
    }
}

/// The placeholder put in place of the `k`-th one taken out:
/// `[placeholder:ph_k]`.
pub open spec fn ph_name(k: nat) -> Seq<char> {
    placeholder_open() + seq!['p', 'h', '_'] + decimal(k) + seq![']']
}

/// `s` with its placeholders, found left to right, replaced by
/// `[placeholder:ph_k]`, `[placeholder:ph_k+1]`, ...; and the placeholders
/// taken out, in that order.
pub open spec fn extract(s: Seq<char>, k: nat) -> (Seq<char>, Seq<Seq<char>>)
    decreases s.len(),
{
    if s.len() == 0 {
        (Seq::empty(), Seq::empty())
    } else if token_len(s) > 0 {
        let l = token_len(s) as int;
        let rest = extract(s.subrange(l, s.len() as int), k + 1);
        (ph_name(k) + rest.0, seq![s.subrange(0, l)] + rest.1)
    } else {
        let rest = extract(s.drop_first(), k);
        (seq![s[0]] + rest.0, rest.1)
    }
}

/// The original stored under `key`: that of the last pair with this key.
pub open spec fn lookup(st: Seq<(Seq<char>, Seq<char>)>, key: Seq<char>) -> Option<Seq<char>>
    decreases st.len(),
{
    if st.len() == 0 {
        None
    } else if st.last().0 == key {
        Some(st.last().1)
    } else {
        lookup(st.drop_last(), key)
    }
}

/// `t` with each placeholder that has a stored original replaced by that
/// original, in one pass from left to right.
pub open spec fn restore(t: Seq<char>, st: Seq<(Seq<char>, Seq<char>)>) -> Seq<char>
    decreases t.len(),
{
    if t.len() == 0 {
        Seq::empty()
    } else if token_len(t) > 0 && lookup(st, t.subrange(0, token_len(t) as int)) is Some {
        lookup(st, t.subrange(0, token_len(t) as int))->Some_0 + restore(
            t.subrange(token_len(t) as int, t.len() as int),
            st,
        )
    } else {
        seq![t[0]] + restore(t.drop_first(), st)
    }
}

/// The (placeholder, original) pairs stored for `origs`, the placeholders
/// numbered from `k`.
pub open spec fn ph_pairs(k: nat, origs: Seq<Seq<char>>) -> Seq<(Seq<char>, Seq<char>)> {
    Seq::new(origs.len(), |j: int| (ph_name((k + j) as nat), origs[j]))
}

proof fn lemma_word_run_chars(s: Seq<char>, j: int, q: int)
    requires
        0 <= j,
        0 <= q < word_run(s, j),
    ensures
        j + q < s.len(),
        is_word_char(s[j + q]),
    decreases q,
{
    if q > 0 {
        lemma_word_run_chars(s, j + 1, q - 1);
    }
}

proof fn lemma_word_run_exact(s: Seq<char>, j: int, n: int)
    requires
        0 <= j,
        0 <= n,
        j + n < s.len(),
        forall|q: int| 0 <= q < n ==> is_word_char(#[trigger] s[j + q]),
        !is_word_char(s[j + n]),
    ensures
        word_run(s, j) == n,
    decreases n,
{
    if n > 0 {
        assert(is_word_char(s[j + 0]));
        assert forall|q: int| 0 <= q < n - 1 implies is_word_char(#[trigger] s[(j + 1) + q]) by {
            assert(is_word_char(s[j + (q + 1)]));
        }
        lemma_word_run_exact(s, j + 1, n - 1);
    }
}

proof fn lemma_word_run_suffix(s: Seq<char>, i: int, j: int)
    requires
        0 <= i <= s.len(),
        0 <= j,
    ensures
        word_run(s.subrange(i, s.len() as int), j) == word_run(s, i + j),
    decreases s.len() - i - j,
{
    if i + j < s.len() {
        assert(s.subrange(i, s.len() as int)[j] == s[i + j]);
        lemma_word_run_suffix(s, i, j + 1);
    }
}

/// The placeholder that starts the rest of `s` from `i` is the one that
/// starts at `i` in `s`.
proof fn lemma_suffix_token(s: Seq<char>, i: int)
    requires
        0 <= i < s.len(),
    ensures
        token_len(s.subrange(i, s.len() as int)) == (if placeholder_at(s, i) {
            (14 + word_run(s, i + 13)) as nat
        } else {
            0nat
        }),
{
    let sub = s.subrange(i, s.len() as int);
    lemma_word_run_suffix(s, i, 13);
    if i + 13 <= s.len() {
        assert(sub.subrange(0, 13) =~= s.subrange(i, i + 13));
    }
    let e = 13 + word_run(s, i + 13) as int;
    if e < sub.len() {
        assert(sub[e] == s[i + e]);
    }
}

/// A placeholder opens with `[` and holds no other `[`.
proof fn lemma_token_chars(s: Seq<char>)
    requires
        token_len(s) > 0,
    ensures
        token_len(s) <= s.len(),
        s[0] == '[',
        forall|p: int| 1 <= p < token_len(s) ==> #[trigger] s[p] != '[',
{
    let w = word_run(s, 13) as int;
    assert(s[0] == s.subrange(0, 13)[0]);
    assert forall|p: int| 1 <= p < token_len(s) implies #[trigger] s[p] != '[' by {
        if p < 13 {
            assert(s[p] == s.subrange(0, 13)[p]);
        } else if p < 13 + w {
            lemma_word_run_chars(s, 13, p - 13);
        }
    }
}

/// Whether a placeholder starts a text depends only on its characters.
proof fn lemma_token_local(a: Seq<char>, b: Seq<char>)
    requires
        token_len(a) > 0,
        token_len(a) <= b.len(),
        b.subrange(0, token_len(a) as int) == a.subrange(0, token_len(a) as int),
    ensures
        token_len(b) == token_len(a),
{
    let l = token_len(a) as int;
    let w = word_run(a, 13) as int;
    assert forall|x: int| 0 <= x < l implies #[trigger] b[x] == a[x] by {
        assert(b[x] == b.subrange(0, l)[x]);
        assert(a[x] == a.subrange(0, l)[x]);
    }
    assert(b.subrange(0, 13) =~= a.subrange(0, 13));
    assert forall|q: int| 0 <= q < w implies is_word_char(#[trigger] b[13 + q]) by {
        lemma_word_run_chars(a, 13, q);
        assert(b[13 + q] == a[13 + q]);
    }
    assert(b[13 + w] == a[13 + w]);
    lemma_word_run_exact(b, 13, w);
}

/// `[placeholder:ph_k]` is a placeholder, whatever follows it.
proof fn lemma_ph_token(k: nat, o: Seq<char>)
    ensures
        token_len(ph_name(k) + o) == ph_name(k).len(),
        (ph_name(k) + o).subrange(0, ph_name(k).len() as int) == ph_name(k),
{
    let s = ph_name(k) + o;
    let d = decimal(k);
    let dl = d.len() as int;
    lemma_decimal_parses(k);
    assert(s.subrange(0, 13) =~= placeholder_open());
    assert forall|q: int| 0 <= q < 3 + dl implies is_word_char(#[trigger] s[13 + q]) by {
        if q >= 3 {
            assert(s[13 + q] == d[q - 3]);
        }
    }
    assert(s[16 + dl] == ']');
    lemma_word_run_exact(s, 13, 3 + dl);
    assert(s.subrange(0, ph_name(k).len() as int) =~= ph_name(k));
}

proof fn lemma_ph_name_injective(a: nat, b: nat)
    requires
        ph_name(a) == ph_name(b),
    ensures
        a == b,
{
    lemma_decimal_parses(a);
    lemma_decimal_parses(b);
    assert(ph_name(a).subrange(16, ph_name(a).len() - 1) =~= decimal(a));
    assert(ph_name(b).subrange(16, ph_name(b).len() - 1) =~= decimal(b));
}

/// In a store that ends with the pairs of a run of placeholders, each of
/// them finds its own original.
proof fn lemma_lookup_pairs(pre: Seq<(Seq<char>, Seq<char>)>, k: nat, origs: Seq<Seq<char>>, j: int)
    requires
        0 <= j < origs.len(),
    ensures
        lookup(pre + ph_pairs(k, origs), ph_name((k + j) as nat)) == Some(origs[j]),
    decreases origs.len(),
{
    let n = origs.len() as int;
    let st = pre + ph_pairs(k, origs);
    assert(st.last() == (ph_name((k + (n - 1)) as nat), origs[n - 1]));
    if j != n - 1 {
        if ph_name((k + (n - 1)) as nat) == ph_name((k + j) as nat) {
            lemma_ph_name_injective((k + (n - 1)) as nat, (k + j) as nat);
        }
        assert(st.drop_last() =~= pre + ph_pairs(k, origs.drop_last()));
        lemma_lookup_pairs(pre, k, origs.drop_last(), j);
    }
}

/// As long as the text that extraction writes holds no `[`, it is the text
/// read.
proof fn lemma_extract_prefix(s: Seq<char>, k: nat, m: int)
    requires
        0 <= m <= extract(s, k).0.len(),
        forall|p: int| 0 <= p < m ==> #[trigger] extract(s, k).0[p] != '[',
    ensures
        m <= s.len(),
        extract(s, k).0.subrange(0, m) == s.subrange(0, m),
    decreases s.len(),
{
    let o = extract(s, k).0;
    if s.len() == 0 {
        assert(o.subrange(0, m) =~= s.subrange(0, m));
    } else if token_len(s) > 0 {
        if m > 0 {
            assert(o[0] == ph_name(k)[0]);
            assert(o[0] != '[');
        }
        assert(o.subrange(0, m) =~= s.subrange(0, m));
    } else if m > 0 {
        let o2 = extract(s.drop_first(), k).0;
        assert forall|p: int| 0 <= p < m - 1 implies #[trigger] o2[p] != '[' by {
            assert(o2[p] == o[p + 1]);
        }
        lemma_extract_prefix(s.drop_first(), k, m - 1);
        assert(o.subrange(0, m) =~= seq![s[0]] + o2.subrange(0, m - 1));
        assert(o.subrange(0, m) =~= s.subrange(0, m));
    } else {
        assert(o.subrange(0, m) =~= s.subrange(0, m));
    }
}

/// Restoring, with a store in which each placeholder written finds its
/// original, gives back the text that extraction read.
proof fn lemma_restore_extract(s: Seq<char>, k: nat, st: Seq<(Seq<char>, Seq<char>)>)
    requires
        forall|j: int|
            0 <= j < extract(s, k).1.len() ==> lookup(st, ph_name((k + j) as nat)) == Some(
                #[trigger] extract(s, k).1[j],
            ),
    ensures
        restore(extract(s, k).0, st) == s,
    decreases s.len(),
{
    let e = extract(s, k);
    let o = e.0;
    if s.len() == 0 {
        assert(s =~= Seq::<char>::empty());
    } else if token_len(s) > 0 {
        let l = token_len(s) as int;
        let s2 = s.subrange(l, s.len() as int);
        let e2 = extract(s2, k + 1);
        let pl = ph_name(k).len() as int;
        lemma_ph_token(k, e2.0);
        assert(e.1[0] == s.subrange(0, l));
        assert(lookup(st, ph_name((k + 0) as nat)) == Some(s.subrange(0, l)));
        assert(o.subrange(pl, o.len() as int) =~= e2.0);
        assert forall|j: int| 0 <= j < e2.1.len() implies lookup(st, ph_name(((k + 1) + j) as nat)) == Some(
            #[trigger] e2.1[j],
        ) by {
            assert(e.1[j + 1] == e2.1[j]);
            assert(((k + 1) + j) as nat == (k + (j + 1)) as nat);
        }
        lemma_restore_extract(s2, k + 1, st);
        assert(s.subrange(0, l) + s2 =~= s);
    } else {
        let s1 = s.drop_first();
        let o1 = extract(s1, k).0;
        if token_len(o) > 0 {
            let l = token_len(o) as int;
            lemma_token_chars(o);
            assert forall|p: int| 0 <= p < l - 1 implies #[trigger] o1[p] != '[' by {
                assert(o1[p] == o[p + 1]);
            }
            lemma_extract_prefix(s1, k, l - 1);
            assert(o.subrange(0, l) =~= seq![s[0]] + o1.subrange(0, l - 1));
            assert(s.subrange(0, l) =~= seq![s[0]] + s1.subrange(0, l - 1));
            lemma_token_local(o, s);
        }
        assert(o.drop_first() =~= o1);
        assert forall|j: int| 0 <= j < extract(s1, k).1.len() implies lookup(st, ph_name((k + j) as nat)) == Some(
            #[trigger] extract(s1, k).1[j],
        ) by {
            assert(e.1[j] == extract(s1, k).1[j]);
        }
        lemma_restore_extract(s1, k, st);
        assert(seq![s[0]] + s1 =~= s);
    }
}

fn word_run_exec(s: &[char], j: usize) -> (r: usize)
    requires
        j <= s@.len(),
    ensures
        r == word_run(s@, j as int),
        j + r <= s@.len(),
{
    let mut k = j;
    while k < s.len() && (('a' <= s[k] && s[k] <= 'z') || ('A' <= s[k] && s[k] <= 'Z') || ('0' <= s[k]
        && s[k] <= '9') || s[k] == '_')
        invariant
            j <= k <= s@.len(),
            word_run(s@, j as int) == (k - j) + word_run(s@, k as int),
        decreases s@.len() - k,
    {
        k = k + 1;
    }
    k - j
}

fn placeholder_open_chars() -> (r: Vec<char>)
    ensures
        r@ == placeholder_open(),
{
    let mut v: Vec<char> = Vec::new();
    v.push('[');
    v.push('p');
    v.push('l');
    v.push('a');
    v.push('c');
    v.push('e');
    v.push('h');
    v.push('o');
    v.push('l');
    v.push('d');
    v.push('e');
    v.push('r');
    v.push(':');
    assert(v@ =~= placeholder_open());
    v
}

/// Whether `text` holds a placeholder `[placeholder:NAME]`.
pub fn contains_placeholder(text: &str) -> (r: bool)
    ensures
        r == has_placeholder(text@),
{
    let s = chars_of(text);
    let open = placeholder_open_chars();
    let mut i: usize = 0;
    while i < s.len()
        invariant
            i <= s@.len(),
            s@ == text@,
            open@ == placeholder_open(),
            forall|j: int| 0 <= j < i ==> !placeholder_at(s@, j),
        decreases s@.len() - i,
    {
        if occurs_at_exec(s.as_slice(), i, open.as_slice()) {
            let w = word_run_exec(s.as_slice(), i + 13);
            let e = i + 13 + w;
            if w > 0 && e < s.len() && s[e] == ']' {
                assert(placeholder_at(s@, i as int));
                return true;
            }
        }
        i = i + 1;
    }
    assert forall|j: int| !placeholder_at(s@, j) by {
        if 0 <= j < i {
        } else if j < 0 || j >= s@.len() {
            assert(!occurs_at(s@, j, placeholder_open()));
        }
    }
    false
}

/// The characters of `[placeholder:ph_k]`.
fn placeholder_name(k: usize) -> (r: Vec<char>)
    ensures
        r@ == ph_name(k as nat),
{
    let mut v = placeholder_open_chars();
    v.push('p');
    v.push('h');
    v.push('_');
    push_decimal(&mut v, k as u64);
    v.push(']');
    assert(v@ =~= ph_name(k as nat));
    v
}

/// Text processor for filtering, normalization, and replacement. The
/// placeholders it has taken out are kept as (placeholder, original)
/// pairs; a later pair with the same placeholder wins.
pub struct TextProcessor {
    placeholder_store: Vec<(String, String)>,
}

/// The view of a placeholder store.
pub open spec fn store_view(v: Seq<(String, String)>) -> Seq<(Seq<char>, Seq<char>)> {
    v.map_values(|p: (String, String)| (p.0@, p.1@))
}

impl TextProcessor {
    /// The stored (placeholder, original) pairs.
    pub closed spec fn store(&self) -> Seq<(Seq<char>, Seq<char>)> {
        store_view(self.placeholder_store@)
    }

    /// A processor with nothing stored.
    pub fn new() -> (r: Self)
        ensures
            r.store().len() == 0,
    {
        TextProcessor { placeholder_store: Vec::new() }
    }

    /// Preprocess text: drop zero-width characters, then take out the
    /// placeholders `[placeholder:NAME]`, left to right, putting
    /// `[placeholder:ph_0]`, `[placeholder:ph_1]`, ... in their place and
    /// storing each original under the placeholder that replaced it.
    pub fn preprocess(&mut self, text: &str) -> (r: String)
        ensures
            r@ == extract(without_zero_width(text@), 0).0,
            final(self).store() == old(self).store() + ph_pairs(0, extract(without_zero_width(text@), 0).1),
    {
        let text = self.remove_zero_width_chars(text);
        self.extract_placeholders(text.as_str())
    }

    /// Postprocess text: put the stored originals back in place of their
    /// placeholders, then forget them. The text is read once, left to
    /// right, so an original put back is not searched again.
    pub fn postprocess(&mut self, text: &str) -> (r: String)
        ensures
            r@ == restore(text@, old(self).store()),
            final(self).store().len() == 0,
    {
        self.restore_placeholders(text)
    }

    /// Remove zero-width characters
    fn remove_zero_width_chars(&self, text: &str) -> (r: String)
        ensures
            r@ == without_zero_width(text@),
    {
        let s = chars_of(text);
        let mut out: Vec<char> = Vec::new();
        let mut i: usize = 0;
        while i < s.len()
            invariant
                i <= s@.len(),
                out@ == without_zero_width(s@.subrange(0, i as int)),
            decreases s@.len() - i,
        {
            let c = s[i];
            assert(s@.subrange(0, i + 1).drop_last() =~= s@.subrange(0, i as int));
            if !(c == '\u{200B}' || c == '\u{200C}' || c == '\u{200D}' || c == '\u{FEFF}') {
                out.push(c);
            }
            i = i + 1;
        }
        assert(s@.subrange(0, s@.len() as int) =~= s@);
        string_from(out.as_slice())
    }

    /// Extract placeholders for safe processing.
    fn extract_placeholders(&mut self, text: &str) -> (r: String)
        ensures
            r@ == extract(text@, 0).0,
            final(self).store() == old(self).store() + ph_pairs(0, extract(text@, 0).1),
    {
        let s = chars_of(text);
        let n = s.len();
        let open = placeholder_open_chars();
        let ghost full = extract(s@, 0);
        let ghost st0 = self.store();
        let mut out: Vec<char> = Vec::new();
        let mut i: usize = 0;
        let mut k: usize = 0;
        assert(s@.subrange(0, n as int) =~= s@);
        assert(full.1.subrange(0, 0) + full.1 =~= full.1);
        assert(st0 + ph_pairs(0, full.1.subrange(0, 0)) =~= st0);
        while i < n
            invariant
                s@ == text@,
                n == s@.len(),
                open@ == placeholder_open(),
                full == extract(s@, 0),
                i <= n,
                k <= i,
                k <= full.1.len(),
                out@ + extract(s@.subrange(i as int, n as int), k as nat).0 == full.0,
                full.1.subrange(0, k as int) + extract(s@.subrange(i as int, n as int), k as nat).1 == full.1,
                self.store() == st0 + ph_pairs(0, full.1.subrange(0, k as int)),
            decreases n - i,
        {
            let ghost sub = s@.subrange(i as int, n as int);
            proof {
                lemma_suffix_token(s@, i as int);
            }
            let mut taken = false;
            if occurs_at_exec(s.as_slice(), i, open.as_slice()) {
                let w = word_run_exec(s.as_slice(), i + 13);
                let e = i + 13 + w;
                if w > 0 && e < n && s[e] == ']' {
                    let ghost l = (e + 1 - i) as int;
                    let ghost rest = extract(sub.subrange(l, sub.len() as int), (k + 1) as nat);
                    assert(placeholder_at(s@, i as int));
                    assert(sub.subrange(l, sub.len() as int) =~= s@.subrange(e + 1, n as int));
                    let orig = sub_chars(s.as_slice(), i, e + 1);
                    assert(orig@ =~= sub.subrange(0, l));
                    let ph = placeholder_name(k);
                    let ghost out0 = out@;
                    let ghost store0 = self.placeholder_store@;
                    push_all(&mut out, ph.as_slice());
                    let ph_s = string_from(ph.as_slice());
                    let orig_s = string_from(orig.as_slice());
                    self.placeholder_store.push((ph_s, orig_s));
                    proof {
                        assert(out@ + rest.0 =~= out0 + extract(sub, k as nat).0);
                        assert(full.1.subrange(0, k as int) + (seq![sub.subrange(0, l)] + rest.1) == full.1);
                        assert(full.1.subrange(0, k + 1) =~= full.1.subrange(0, k as int).push(sub.subrange(0, l)));
                        assert(full.1.subrange(0, k + 1) + rest.1 =~= full.1.subrange(0, k as int) + (seq![sub.subrange(0, l)] + rest.1));
                        assert(store_view(self.placeholder_store@) =~= store_view(store0).push((ph_name(k as nat), sub.subrange(0, l))));
                        assert(st0 + ph_pairs(0, full.1.subrange(0, k + 1)) =~= (st0 + ph_pairs(0, full.1.subrange(0, k as int))).push((ph_name(k as nat), sub.subrange(0, l))));
                    }
                    i = e + 1;
                    k = k + 1;
                    taken = true;
                }
            }
            if !taken {
                assert(!placeholder_at(s@, i as int));
                assert(sub.drop_first() =~= s@.subrange(i + 1, n as int));
                let ghost out0 = out@;
                out.push(s[i]);
                assert(out@ + extract(sub.drop_first(), k as nat).0 =~= out0 + extract(sub, k as nat).0);
                i = i + 1;
            }
        }
        assert(s@.subrange(n as int, n as int) =~= Seq::<char>::empty());
        assert(out@ + Seq::<char>::empty() =~= out@);
        assert(full.1.subrange(0, k as int) + Seq::<Seq<char>>::empty() =~= full.1.subrange(0, k as int));
        string_from(out.as_slice())
    }

    /// The position of the last stored pair whose placeholder is `key`.
    fn find_stored(&self, key: &[char]) -> (r: Option<usize>)
        ensures
            match r {
                Some(j) => j < self.store().len() && lookup(self.store(), key@) == Some(self.store()[j as int].1),
                None => lookup(self.store(), key@) is None,
            },
    {
        let ghost st = self.store();
        let mut j = self.placeholder_store.len();
        assert(st.subrange(0, j as int) =~= st);
        while j > 0
            invariant
                st == self.store(),
                j <= st.len(),
                st.len() == self.placeholder_store@.len(),
                lookup(st, key@) == lookup(st.subrange(0, j as int), key@),
            decreases j,
        {
            let hit = chars_equal_str(key, self.placeholder_store[j - 1].0.as_str());
            assert(st.subrange(0, j as int).last() == st[j - 1]);
            if hit {
                return Some(j - 1);
            }
            assert(st.subrange(0, j as int).drop_last() =~= st.subrange(0, j - 1));
            j = j - 1;
        }
        None
    }

    /// Restore placeholders to original values, then forget them.
    fn restore_placeholders(&mut self, text: &str) -> (r: String)
        ensures
            r@ == restore(text@, old(self).store()),
            final(self).store().len() == 0,
    {
        let t = chars_of(text);
        let n = t.len();
        let open = placeholder_open_chars();
        let ghost st = self.store();
        let mut out: Vec<char> = Vec::new();
        let mut i: usize = 0;
        assert(t@.subrange(0, n as int) =~= t@);
        while i < n
            invariant
                t@ == text@,
                n == t@.len(),
                open@ == placeholder_open(),
                st == self.store(),
                i <= n,
                out@ + restore(t@.subrange(i as int, n as int), st) == restore(t@, st),
            decreases n - i,
        {
            let ghost sub = t@.subrange(i as int, n as int);
            proof {
                lemma_suffix_token(t@, i as int);
            }
            let mut done = false;
            if occurs_at_exec(t.as_slice(), i, open.as_slice()) {
                let w = word_run_exec(t.as_slice(), i + 13);
                let e = i + 13 + w;
                if w > 0 && e < n && t[e] == ']' {
                    let ghost l = (e + 1 - i) as int;
                    assert(placeholder_at(t@, i as int));
                    let key = sub_chars(t.as_slice(), i, e + 1);
                    assert(key@ =~= sub.subrange(0, l));
                    match self.find_stored(key.as_slice()) {
                        Some(j) => {
                            let orig = chars_of(self.placeholder_store[j].1.as_str());
                            let ghost out0 = out@;
                            push_all(&mut out, orig.as_slice());
                            assert(sub.subrange(l, sub.len() as int) =~= t@.subrange(e + 1, n as int));
                            assert(out@ + restore(t@.subrange(e + 1, n as int), st) =~= out0 + restore(sub, st));
                            i = e + 1;
                            done = true;
                        },
                        None => {},
                    }
                }
            }
            if !done {
                assert(sub.drop_first() =~= t@.subrange(i + 1, n as int));
                let ghost out0 = out@;
                out.push(t[i]);
                assert(out@ + restore(sub.drop_first(), st) =~= out0 + restore(sub, st));
                i = i + 1;
            }
        }
        assert(out@ + restore(t@.subrange(n as int, n as int), st) =~= out@);
        self.placeholder_store.clear();
        string_from(out.as_slice())
    }
}

impl Default for TextProcessor {
    fn default() -> (r: Self)
        ensures
            r.store().len() == 0,
    {
        TextProcessor::new()
    }
}

proof fn lemma_no_zero_width(t: Seq<char>)
    ensures
        forall|i: int|
            0 <= i < without_zero_width(t).len() ==> !is_zero_width(#[trigger] without_zero_width(t)[i]),
    decreases t.len(),
{
    if t.len() > 0 {
        let p = t.drop_last();
        lemma_no_zero_width(p);
        let w = without_zero_width(t);
        assert forall|i: int| 0 <= i < w.len() implies !is_zero_width(#[trigger] w[i]) by {
            if i < without_zero_width(p).len() {
                assert(w[i] == without_zero_width(p)[i]);
            }
        }
    }
}

/// Whatever was stored before, postprocessing a preprocessed text gives
/// back the text without its zero-width characters: every placeholder
/// taken out is put back where it stood, and nothing else changes. That
/// text has no zero-width character left.
pub proof fn lemma_round_trip(t: Seq<char>, pre: Seq<(Seq<char>, Seq<char>)>)
    ensures
        restore(
            extract(without_zero_width(t), 0).0,
            pre + ph_pairs(0, extract(without_zero_width(t), 0).1),
        ) == without_zero_width(t),
        forall|i: int|
            0 <= i < without_zero_width(t).len() ==> !is_zero_width(#[trigger] without_zero_width(t)[i]),
{
    let x = without_zero_width(t);
    let e = extract(x, 0);
    assert forall|j: int| 0 <= j < e.1.len() implies lookup(pre + ph_pairs(0, e.1), ph_name((0 + j) as nat))
        == Some(#[trigger] e.1[j]) by {
        lemma_lookup_pairs(pre, 0, e.1, j);
    }
    lemma_restore_extract(x, 0, pre + ph_pairs(0, e.1));
    lemma_no_zero_width(t);
}

} // verus!
