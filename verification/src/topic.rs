//! Topic names, topic filters, and MQTT wildcard matching.
//!
//! A topic name is a `/`-separated sequence of byte levels; a level may be
//! empty. A filter may use `+` (exactly one level) and `#` (zero or more
//! trailing levels, only as the final level). A topic that itself contains
//! `+` or `#`, or is empty, is not deliverable and matches no filter.

use vstd::prelude::*;

verus! {

use vstd::string::StringSliceAdditionalSpecFns;

/// The topic level separator `/`.
pub const SEP_BYTE: u8 = 47;

/// The single-level wildcard `+`.
pub const PLUS_BYTE: u8 = 43;

/// The multi-level wildcard `#`.
pub const HASH_BYTE: u8 = 35;

/// True when the byte string holds a wildcard byte (`+` or `#`).
pub open spec fn has_wildcard(s: Seq<u8>) -> bool {
    exists|i: int| 0 <= i < s.len() && (s[i] == PLUS_BYTE || s[i] == HASH_BYTE)
}

/// A deliverable topic name: nonempty and wildcard-free.
pub open spec fn valid_topic(t: Seq<u8>) -> bool {
    &&& t.len() > 0
    &&& !has_wildcard(t)
}

/// Number of bytes before the first `/` (the first level's length).
pub open spec fn head_level_len(s: Seq<u8>) -> int
    decreases s.len(),
{
    if s.len() == 0 {
        0
    } else if s[0] == SEP_BYTE {
        0
    } else {
        1 + head_level_len(s.subrange(1, s.len() as int))
    }
}

/// The `/`-separated levels of a byte string; always at least one level.
pub open spec fn levels(s: Seq<u8>) -> Seq<Seq<u8>>
    decreases s.len(),
{
    let h = head_level_len(s);
    if 0 <= h && h < s.len() {
        seq![s.subrange(0, h)] + levels(s.subrange(h + 1, s.len() as int))
    } else {
        seq![s]
    }
}

/// The filter level that matches any one topic level.
pub open spec fn plus_level() -> Seq<u8> {
    seq![PLUS_BYTE]
}

/// The filter level that matches all remaining topic levels.
pub open spec fn hash_level() -> Seq<u8> {
    seq![HASH_BYTE]
}

/// Level-wise filter matching: `+` matches any single level, a final `#`
/// matches zero or more remaining levels, and any other level must be equal.
pub open spec fn match_levels(fs: Seq<Seq<u8>>, ts: Seq<Seq<u8>>) -> bool
    decreases fs.len(),
{
    if fs.len() == 0 {
        ts.len() == 0
    } else if fs.len() == 1 && fs[0] == hash_level() {
        true
    } else if ts.len() == 0 {
        false
    } else if fs[0] == plus_level() || fs[0] == ts[0] {
        match_levels(fs.drop_first(), ts.drop_first())
    } else {
        false
    }
}

/// The matching contract: `filter` selects `topic` exactly when `topic` is a
/// deliverable name and the filter's levels match the topic's levels.
pub open spec fn topic_matches(filter: Seq<u8>, topic: Seq<u8>) -> bool {
    valid_topic(topic) && match_levels(levels(filter), levels(topic))
}

/// `head_level_len` is the position of the first separator (or the length).
pub proof fn lemma_head_level_len_bounds(s: Seq<u8>)
    ensures
        0 <= head_level_len(s) <= s.len(),
        forall|j: int| 0 <= j < head_level_len(s) ==> s[j] != SEP_BYTE,
        head_level_len(s) < s.len() ==> s[head_level_len(s)] == SEP_BYTE,
    decreases s.len(),
{
    if s.len() == 0 {
    } else if s[0] == SEP_BYTE {
    } else {
        let rest = s.subrange(1, s.len() as int);
        lemma_head_level_len_bounds(rest);
        assert forall|j: int| 0 <= j < head_level_len(s) implies s[j] != SEP_BYTE by {
            if j > 0 {
                assert(rest[j - 1] == s[j]);
            }
        }
    }
}

/// Any position with no separator before it and a separator (or the end) at it
/// is the first level's length.
pub proof fn lemma_head_level_len_is(s: Seq<u8>, h: int)
    requires
        0 <= h <= s.len(),
        forall|j: int| 0 <= j < h ==> s[j] != SEP_BYTE,
        h < s.len() ==> s[h] == SEP_BYTE,
    ensures
        head_level_len(s) == h,
    decreases s.len(),
{
    if s.len() == 0 {
    } else if h == 0 {
    } else {
        let rest = s.subrange(1, s.len() as int);
        assert forall|j: int| 0 <= j < h - 1 implies rest[j] != SEP_BYTE by {
            assert(rest[j] == s[j + 1]);
        }
        lemma_head_level_len_is(rest, h - 1);
    }
}

/// Bytes past the first separator of a scan window form the same levels
/// whether the window starts at the level or at the whole suffix.
proof fn lemma_levels_step(s: Seq<u8>, h: int)
    requires
        0 <= h < s.len(),
        head_level_len(s) == h,
    ensures
        levels(s) == seq![s.subrange(0, h)] + levels(s.subrange(h + 1, s.len() as int)),
        levels(s).drop_first() == levels(s.subrange(h + 1, s.len() as int)),
        levels(s)[0] == s.subrange(0, h),
{
    assert(levels(s) == seq![s.subrange(0, h)] + levels(s.subrange(h + 1, s.len() as int)));
    assert(levels(s).drop_first() =~= levels(s.subrange(h + 1, s.len() as int)));
}

/// Filter matching is reflexive on level lists.
proof fn lemma_match_levels_refl(ls: Seq<Seq<u8>>)
    ensures
        match_levels(ls, ls),
    decreases ls.len(),
{
    if ls.len() == 0 {
    } else if ls.len() == 1 && ls[0] == hash_level() {
    } else {
        lemma_match_levels_refl(ls.drop_first());
    }
}

/// Every deliverable topic, used as a filter, matches itself.
pub proof fn lemma_topic_matches_self(t: Seq<u8>)
    requires
        valid_topic(t),
    ensures
        topic_matches(t, t),
{
    lemma_match_levels_refl(levels(t));
}

/// The filter `#` alone matches every deliverable topic.
pub proof fn lemma_hash_matches_all(t: Seq<u8>)
    requires
        valid_topic(t),
    ensures
        topic_matches(hash_level(), t),
{
    let s = hash_level();
    assert(s.subrange(1, 1).len() == 0);
    assert(head_level_len(s.subrange(1, 1)) == 0);
    assert(s[0] == HASH_BYTE && HASH_BYTE != SEP_BYTE);
    assert(head_level_len(s) == 1);
    assert(levels(s) == seq![s]);
}

/// A wildcard-free filter that matches a topic is that topic, byte for byte.
proof fn lemma_nowild_match_implies_eq(f: Seq<u8>, t: Seq<u8>)
    requires
        !has_wildcard(f),
        match_levels(levels(f), levels(t)),
    ensures
        f == t,
    decreases f.len(),
{
    let hf = head_level_len(f);
    let ht = head_level_len(t);
    lemma_head_level_len_bounds(f);
    lemma_head_level_len_bounds(t);
    let fs = levels(f);
    let ts = levels(t);
    lemma_levels_nonempty(t);
    if hf == f.len() {
        assert(fs == seq![f]);
        if fs[0] == hash_level() {
            assert(f.len() == 1 && f[0] == hash_level()[0]);
            assert(has_wildcard(f));
            assert(false);
        }
        if fs[0] == plus_level() {
            assert(f.len() == 1 && f[0] == plus_level()[0]);
            assert(has_wildcard(f));
            assert(false);
        }
        assert(fs[0] == ts[0]);
        assert(match_levels(fs.drop_first(), ts.drop_first()));
        assert(fs.drop_first().len() == 0);
        assert(ts.drop_first().len() == 0);
        if ht < t.len() {
            lemma_levels_step(t, ht);
            lemma_levels_nonempty(t.subrange(ht + 1, t.len() as int));
            assert(false);
        }
        assert(ts == seq![t]);
        assert(f == t);
    } else {
        lemma_levels_step(f, hf);
        let frest = f.subrange(hf + 1, f.len() as int);
        lemma_levels_nonempty(frest);
        assert(fs.len() >= 2);
        assert(!(fs.len() == 1 && fs[0] == hash_level()));
        assert(fs[0] == f.subrange(0, hf));
        if fs[0] == plus_level() {
            assert(f.subrange(0, hf).len() == 1);
            assert(f.subrange(0, hf)[0] == f[0]);
            assert(f[0] == plus_level()[0]);
            assert(has_wildcard(f));
            assert(false);
        }
        assert(fs[0] == ts[0]);
        assert(match_levels(fs.drop_first(), ts.drop_first()));
        assert(fs.drop_first() == levels(frest));
        if ht == t.len() {
            assert(ts == seq![t]);
            assert(ts.drop_first().len() == 0);
            if levels(frest).len() == 1 && levels(frest)[0] == hash_level() {
                let g = head_level_len(frest);
                lemma_head_level_len_bounds(frest);
                if 0 <= g && g < frest.len() {
                    lemma_levels_step(frest, g);
                    lemma_levels_nonempty(frest.subrange(g + 1, frest.len() as int));
                    assert(false);
                }
                assert(levels(frest) == seq![frest]);
                assert(frest == hash_level());
                assert(frest[0] == HASH_BYTE);
                assert(f[hf + 1] == frest[0]);
                assert(has_wildcard(f));
                assert(false);
            }
            assert(!match_levels(levels(frest), ts.drop_first()));
            assert(false);
        }
        lemma_levels_step(t, ht);
        let trest = t.subrange(ht + 1, t.len() as int);
        assert(ts.drop_first() == levels(trest));
        assert(!has_wildcard(frest)) by {
            if has_wildcard(frest) {
                let i = choose|i: int|
                    0 <= i < frest.len() && (frest[i] == PLUS_BYTE || frest[i] == HASH_BYTE);
                assert(f[hf + 1 + i] == frest[i]);
            }
        }
        lemma_nowild_match_implies_eq(frest, trest);
        assert(ts[0] == t.subrange(0, ht));
        assert(f.subrange(0, hf) == t.subrange(0, ht));
        assert(f.subrange(0, hf).len() == hf);
        assert(t.subrange(0, ht).len() == ht);
        assert(hf == ht);
        assert(f =~= f.subrange(0, hf) + seq![SEP_BYTE] + frest);
        assert(t =~= t.subrange(0, ht) + seq![SEP_BYTE] + trest);
    }
}

/// A wildcard-free filter selects exactly one deliverable topic: itself.
pub proof fn lemma_wildcard_free_exact(f: Seq<u8>, t: Seq<u8>)
    requires
        !has_wildcard(f),
        valid_topic(t),
    ensures
        topic_matches(f, t) <==> f == t,
{
    if topic_matches(f, t) {
        lemma_nowild_match_implies_eq(f, t);
    }
    if f == t {
        lemma_topic_matches_self(t);
    }
}

/// Scan for the end of the level that starts at `from`.
fn level_end(s: &[u8], from: usize) -> (end: usize)
    requires
        from <= s@.len(),
    ensures
        from <= end <= s@.len(),
        forall|j: int| from <= j < end ==> s@[j] != SEP_BYTE,
        end < s@.len() ==> s@[end as int] == SEP_BYTE,
{
    let mut i: usize = from;
    while i < s.len()
        invariant
            from <= i <= s@.len(),
            forall|j: int| from <= j < i ==> s@[j] != SEP_BYTE,
        decreases s@.len() - i,
    {
        if s[i] == SEP_BYTE {
            return i;
        }
        i = i + 1;
    }
    i
}

/// Byte-wise comparison of two level windows.
fn levels_equal(f: &[u8], fi: usize, fe: usize, t: &[u8], ti: usize, te: usize) -> (r: bool)
    requires
        fi <= fe <= f@.len(),
        ti <= te <= t@.len(),
    ensures
        r == (f@.subrange(fi as int, fe as int) == t@.subrange(ti as int, te as int)),
{
    let ghost fl = f@.subrange(fi as int, fe as int);
    let ghost tl = t@.subrange(ti as int, te as int);
    if fe - fi != te - ti {
        assert(fl.len() != tl.len());
        return false;
    }
    let mut k: usize = 0;
    while k < fe - fi
        invariant
            fi <= fe <= f@.len(),
            ti <= te <= t@.len(),
            fe - fi == te - ti,
            0 <= k <= fe - fi,
            fl == f@.subrange(fi as int, fe as int),
            tl == t@.subrange(ti as int, te as int),
            forall|j: int| 0 <= j < k ==> fl[j] == tl[j],
        decreases fe - fi - k,
    {
        if f[fi + k] != t[ti + k] {
            assert(fl[k as int] != tl[k as int]);
            return false;
        }
        k = k + 1;
    }
    assert(fl =~= tl);
    true
}

/// Is the topic name deliverable?
pub fn topic_name_valid(t: &[u8]) -> (r: bool)
    ensures
        r == valid_topic(t@),
{
    if t.len() == 0 {
        return false;
    }
    let mut i: usize = 0;
    while i < t.len()
        invariant
            0 <= i <= t@.len(),
            forall|j: int| 0 <= j < i ==> t@[j] != PLUS_BYTE && t@[j] != HASH_BYTE,
        decreases t@.len() - i,
    {
        if t[i] == PLUS_BYTE || t[i] == HASH_BYTE {
            return false;
        }
        i = i + 1;
    }
    true
}

/// `levels` always yields at least one level.
pub proof fn lemma_levels_nonempty(s: Seq<u8>)
    ensures
        levels(s).len() >= 1,
{
}

/// Level-wise matching of filter bytes against topic bytes.
fn match_filter_levels(f: &[u8], t: &[u8]) -> (r: bool)
    ensures
        r == match_levels(levels(f@), levels(t@)),
{
    let mut fi: usize = 0;
    let mut ti: usize = 0;
    proof {
        assert(f@.subrange(0, f@.len() as int) =~= f@);
        assert(t@.subrange(0, t@.len() as int) =~= t@);
    }
    loop
        invariant
            fi <= f@.len(),
            ti <= t@.len(),
            match_levels(levels(f@), levels(t@)) == match_levels(
                levels(f@.subrange(fi as int, f@.len() as int)),
                levels(t@.subrange(ti as int, t@.len() as int)),
            ),
        decreases f@.len() - fi,
    {
        let ghost fsfx = f@.subrange(fi as int, f@.len() as int);
        let ghost tsfx = t@.subrange(ti as int, t@.len() as int);
        let fe = level_end(f, fi);
        let te = level_end(t, ti);
        proof {
            assert forall|j: int| 0 <= j < fe - fi implies fsfx[j] != SEP_BYTE by {
                assert(fsfx[j] == f@[fi + j]);
            }
            if fe < f@.len() {
                assert(fsfx[fe - fi] == f@[fe as int]);
            }
            lemma_head_level_len_is(fsfx, fe - fi);
            assert forall|j: int| 0 <= j < te - ti implies tsfx[j] != SEP_BYTE by {
                assert(tsfx[j] == t@[ti + j]);
            }
            if te < t@.len() {
                assert(tsfx[te - ti] == t@[te as int]);
            }
            lemma_head_level_len_is(tsfx, te - ti);
        }
        let ghost fs = levels(fsfx);
        let ghost ts = levels(tsfx);
        let ghost fhead = f@.subrange(fi as int, fe as int);
        let ghost thead = t@.subrange(ti as int, te as int);
        proof {
            if fe == f@.len() {
                assert(fs == seq![fsfx]);
                assert(fhead =~= fsfx);
            } else {
                lemma_levels_step(fsfx, fe - fi);
                lemma_levels_nonempty(fsfx.subrange(fe - fi + 1, fsfx.len() as int));
                assert(fsfx.subrange(0, fe - fi) =~= fhead);
                assert(fs.len() >= 2);
            }
            assert(fs[0] == fhead);
            if te == t@.len() {
                assert(ts == seq![tsfx]);
                assert(thead =~= tsfx);
            } else {
                lemma_levels_step(tsfx, te - ti);
                lemma_levels_nonempty(tsfx.subrange(te - ti + 1, tsfx.len() as int));
                assert(tsfx.subrange(0, te - ti) =~= thead);
                assert(ts.len() >= 2);
            }
            assert(ts[0] == thead);
        }
        // A lone `#` as the whole remaining filter matches all that remains.
        if fe == f.len() && fe - fi == 1 && f[fi] == HASH_BYTE {
            proof {
                assert(fhead =~= hash_level());
                assert(match_levels(fs, ts));
            }
            return true;
        }
        proof {
            // The head filter level is not a lone final `#` here.
            if fe == f@.len() {
                if fe - fi == 1 {
                    assert(fhead[0] == f@[fi as int]);
                    assert(hash_level()[0] == HASH_BYTE);
                    assert(fhead != hash_level());
                } else {
                    assert(fhead.len() != 1);
                    assert(fhead != hash_level());
                }
            }
            assert(!(fs.len() == 1 && fs[0] == hash_level()));
        }
        let plus = fe - fi == 1 && f[fi] == PLUS_BYTE;
        proof {
            if plus {
                assert(fhead =~= plus_level());
            } else if fhead == plus_level() {
                assert(fhead[0] == f@[fi as int]);
                assert(plus_level()[0] == PLUS_BYTE);
                assert(false);
            }
        }
        let lev_ok = plus || levels_equal(f, fi, fe, t, ti, te);
        if !lev_ok {
            proof {
                assert(fs[0] != plus_level() && fs[0] != ts[0]);
                assert(!match_levels(fs, ts));
            }
            return false;
        }
        proof {
            assert(fs[0] == plus_level() || fs[0] == ts[0]);
            assert(match_levels(fs, ts) == match_levels(fs.drop_first(), ts.drop_first()));
        }
        if fe == f.len() {
            // Filter exhausted: match exactly when the topic is exhausted too.
            proof {
                assert(fs.drop_first().len() == 0);
                assert(match_levels(fs.drop_first(), ts.drop_first()) == (
                ts.drop_first().len() == 0));
                if te < t@.len() {
                    assert(ts.drop_first().len() > 0);
                } else {
                    assert(ts.drop_first().len() == 0);
                }
            }
            return te == t.len();
        }
        if te == t.len() {
            // Topic exhausted but the filter continues: only a trailing
            // `/#` (zero further levels) can still match.
            let r = f.len() - fe == 2 && f[fe + 1] == HASH_BYTE;
            proof {
                lemma_levels_step(fsfx, fe - fi);
                let frest = fsfx.subrange(fe - fi + 1, fsfx.len() as int);
                assert(frest =~= f@.subrange(fe + 1, f@.len() as int));
                assert(fs.drop_first() == levels(frest));
                assert(ts.drop_first().len() == 0);
                let g = head_level_len(frest);
                lemma_head_level_len_bounds(frest);
                lemma_levels_nonempty(frest);
                if r {
                    assert(frest.len() == 1 && frest[0] == HASH_BYTE);
                    assert(g == 1) by {
                        lemma_head_level_len_is(frest, 1);
                    }
                    assert(levels(frest) == seq![frest]);
                    assert(frest =~= hash_level());
                    assert(match_levels(levels(frest), ts.drop_first()));
                } else {
                    if levels(frest).len() == 1 && levels(frest)[0] == hash_level() {
                        if 0 <= g && g < frest.len() {
                            lemma_levels_nonempty(
                                frest.subrange(g + 1, frest.len() as int),
                            );
                            assert(levels(frest).len() >= 2);
                            assert(false);
                        } else {
                            assert(levels(frest) == seq![frest]);
                            assert(frest == hash_level());
                            assert(frest[0] == f@[fe + 1]);
                            assert(f@[fe + 1] == HASH_BYTE && f@.len() - fe == 2);
                            assert(false);
                        }
                    }
                    assert(!match_levels(levels(frest), ts.drop_first()));
                }
            }
            return r;
        }
        proof {
            lemma_levels_step(fsfx, fe - fi);
            lemma_levels_step(tsfx, te - ti);
            assert(fsfx.subrange(fe - fi + 1, fsfx.len() as int) =~= f@.subrange(
                fe + 1,
                f@.len() as int,
            ));
            assert(tsfx.subrange(te - ti + 1, tsfx.len() as int) =~= t@.subrange(
                te + 1,
                t@.len() as int,
            ));
        }
        fi = fe + 1;
        ti = te + 1;
    }
}

/// Does the filter select this topic name? The filter may hold `+` and `#`
/// wildcards; the topic must be a concrete, deliverable name.
pub fn match_topic(wildcard: &str, topic: &str) -> (r: bool)
    ensures
        r == topic_matches(wildcard.spec_bytes(), topic.spec_bytes()),
{
    let f = wildcard.as_bytes();
    let t = topic.as_bytes();
    if !topic_name_valid(t) {
        return false;
    }
    match_filter_levels(f, t)
}

/// Does the byte string hold a wildcard byte?
pub fn contains_wildcard(s: &[u8]) -> (r: bool)
    ensures
        r == has_wildcard(s@),
{
    let mut i: usize = 0;
    while i < s.len()
        invariant
            0 <= i <= s@.len(),
            forall|j: int| 0 <= j < i ==> s@[j] != PLUS_BYTE && s@[j] != HASH_BYTE,
        decreases s@.len() - i,
    {
        if s[i] == PLUS_BYTE || s[i] == HASH_BYTE {
            return true;
        }
        i = i + 1;
    }
    false
}


/// Byte-wise slice equality.
pub fn bytes_eq(a: &[u8], b: &[u8]) -> (r: bool)
    ensures
        r == (a@ == b@),
{
    if a.len() != b.len() {
        return false;
    }
    let mut i: usize = 0;
    while i < a.len()
        invariant
            a@.len() == b@.len(),
            0 <= i <= a@.len(),
            forall|j: int| 0 <= j < i ==> a@[j] == b@[j],
        decreases a@.len() - i,
    {
        if a[i] != b[i] {
            return false;
        }
        i = i + 1;
    }
    proof {
        assert(a@ =~= b@);
    }
    true
}

/// String equality, stated over the character views.
pub fn str_eq(a: &str, b: &str) -> (r: bool)
    ensures
        r == (a@ == b@),
{
    let r = bytes_eq(a.as_bytes(), b.as_bytes());
    proof {
        vstd::utf8::encode_utf8_decode_utf8(a@);
        vstd::utf8::encode_utf8_decode_utf8(b@);
    }
    r
}

} // verus!
