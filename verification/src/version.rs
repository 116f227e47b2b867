//! Semantic versions: the model, standard precedence ordering, canonical
//! rendering, and parsing that inverts the rendering.

use vstd::prelude::*;
use crate::text::{
    all_digits, dec_chars, dec_ok, digits_val, is_digit, lemma_canonical_digits, lemma_dec_chars,
    parse_decimal, push_decimal, scan_for,
};

verus! {

/// One pre-release identifier: purely numeric, or alphanumeric.
#[derive(Debug, PartialEq, Eq)]
pub enum PreId {
    Num(u64),
    Alpha(String),
}

/// The mathematical shape of a pre-release identifier.
#[verifier::ext_equal]
pub enum PreIdView {
    Num(u64),
    Alpha(Seq<char>),
}

impl View for PreId {
    type V = PreIdView;

    open spec fn view(&self) -> PreIdView {
        match self {
            PreId::Num(n) => PreIdView::Num(*n),
            PreId::Alpha(s) => PreIdView::Alpha(s@),
        }
    }
}

impl DeepView for PreId {
    type V = PreIdView;

    open spec fn deep_view(&self) -> PreIdView {
        self.view()
    }
}

/// A semantic version: `MAJOR.MINOR.PATCH` with an optional pre-release
/// tag.
#[derive(Debug, PartialEq, Eq)]
pub struct Version {
    pub major: u64,
    pub minor: u64,
    pub patch: u64,
    pub pre: Vec<PreId>,
}

/// The mathematical shape of a semantic version.
#[verifier::ext_equal]
pub struct VersionModel {
    pub major: u64,
    pub minor: u64,
    pub patch: u64,
    pub pre: Seq<PreIdView>,
}

impl View for Version {
    type V = VersionModel;

    open spec fn view(&self) -> VersionModel {
        VersionModel { major: self.major, minor: self.minor, patch: self.patch, pre: self.pre.deep_view() }
    }
}

impl Clone for PreId {
    /// An identifier clones to an equal value.
    fn clone(&self) -> (res: Self)
        ensures
            res == *self,
    {
        match self {
            PreId::Num(n) => PreId::Num(*n),
            PreId::Alpha(s) => PreId::Alpha(s.clone()),
        }
    }
}

impl Clone for Version {
    /// A version clones to one with the same model.
    fn clone(&self) -> (res: Self)
        ensures
            res@ == self@,
    {
        let n = self.pre.len();
        let mut pre: Vec<PreId> = Vec::new();
        let mut i: usize = 0;
        while i < n
            invariant
                0 <= i <= n,
                n == self.pre@.len(),
                pre@ =~= self.pre@.subrange(0, i as int),
            decreases n - i,
        {
            pre.push(self.pre[i].clone());
            proof {
                assert(pre@ =~= self.pre@.subrange(0, i + 1 as int));
            }
            i = i + 1;
        }
        let res = Version { major: self.major, minor: self.minor, patch: self.patch, pre };
        proof {
            assert(res.pre@ =~= self.pre@);
            assert(res@.pre =~= self@.pre);
            assert(res@ =~= self@);
        }
        res
    }
}

/// A character allowed inside an identifier: ASCII letter, digit or
/// hyphen.
pub open spec fn ident_char(c: char) -> bool {
    ||| is_digit(c)
    ||| 97 <= (c as int) <= 122
    ||| 65 <= (c as int) <= 90
    ||| c == '-'
}

/// A well-formed pre-release identifier.  An alphanumeric identifier is
/// nonempty, holds only identifier characters, and holds at least one
/// non-digit; a purely numeric one is carried as its value, which rules
/// out leading zeros.
pub open spec fn valid_pre_id(p: PreIdView) -> bool {
    match p {
        PreIdView::Num(_) => true,
        PreIdView::Alpha(s) => {
            &&& s.len() > 0
            &&& forall|k: int| 0 <= k < s.len() ==> ident_char(#[trigger] s[k])
            &&& !all_digits(s)
        },
    }
}

/// A well-formed pre-release tag.
pub open spec fn valid_pre(pre: Seq<PreIdView>) -> bool {
    forall|k: int| 0 <= k < pre.len() ==> valid_pre_id(#[trigger] pre[k])
}

/// The characters of one pre-release identifier.
pub open spec fn pre_id_chars(p: PreIdView) -> Seq<char> {
    match p {
        PreIdView::Num(n) => dec_chars(n as nat),
        PreIdView::Alpha(s) => s,
    }
}

/// The characters of a pre-release tag: identifiers joined by dots.
pub open spec fn pre_chars(pre: Seq<PreIdView>) -> Seq<char>
    decreases pre.len(),
{
    if pre.len() == 0 {
        Seq::empty()
    } else if pre.len() == 1 {
        pre_id_chars(pre[0])
    } else {
        pre_id_chars(pre[0]) + seq!['.'] + pre_chars(pre.drop_first())
    }
}

/// The canonical rendering of a version.
pub open spec fn ver_chars(v: VersionModel) -> Seq<char> {
    dec_chars(v.major as nat) + seq!['.'] + dec_chars(v.minor as nat) + seq!['.'] + dec_chars(
        v.patch as nat,
    ) + if v.pre.len() == 0 {
        Seq::<char>::empty()
    } else {
        seq!['-'] + pre_chars(v.pre)
    }
}

/// Lexicographic order on character sequences, by code point.
pub open spec fn chars_lt(a: Seq<char>, b: Seq<char>) -> bool
    decreases a.len(),
{
    if b.len() == 0 {
        false
    } else if a.len() == 0 {
        true
    } else if a[0] != b[0] {
        (a[0] as int) < (b[0] as int)
    } else {
        chars_lt(a.drop_first(), b.drop_first())
    }
}

/// Precedence of single pre-release identifiers: numeric identifiers
/// compare numerically and rank below alphanumeric ones, which compare
/// lexicographically.
pub open spec fn pre_id_lt(a: PreIdView, b: PreIdView) -> bool {
    match (a, b) {
        (PreIdView::Num(x), PreIdView::Num(y)) => x < y,
        (PreIdView::Num(_), PreIdView::Alpha(_)) => true,
        (PreIdView::Alpha(_), PreIdView::Num(_)) => false,
        (PreIdView::Alpha(x), PreIdView::Alpha(y)) => chars_lt(x, y),
    }
}

/// Precedence of pre-release tags: identifier by identifier, a missing
/// identifier ranking below any present one.
pub open spec fn pre_lt(a: Seq<PreIdView>, b: Seq<PreIdView>) -> bool
    decreases a.len(),
{
    if a.len() == 0 {
        b.len() > 0
    } else if b.len() == 0 {
        false
    } else if a[0] != b[0] {
        pre_id_lt(a[0], b[0])
    } else {
        pre_lt(a.drop_first(), b.drop_first())
    }
}

/// Standard semantic-version precedence: numeric core first, then a
/// version with a pre-release tag ranks below the same core without one,
/// then tag precedence.
pub open spec fn ver_lt(a: VersionModel, b: VersionModel) -> bool {
    if a.major != b.major {
        a.major < b.major
    } else if a.minor != b.minor {
        a.minor < b.minor
    } else if a.patch != b.patch {
        a.patch < b.patch
    } else if a.pre.len() == 0 {
        false
    } else if b.pre.len() == 0 {
        true
    } else {
        pre_lt(a.pre, b.pre)
    }
}

/// A character that can stand in a rendered version: a digit, an
/// identifier character, or a dot.
pub open spec fn ver_plain_char(c: char) -> bool {
    is_digit(c) || ident_char(c) || c == '.'
}

/// A rendered tag holds only identifier characters and dots.
proof fn lemma_pre_chars_plain(ps: Seq<PreIdView>)
    requires
        valid_pre(ps),
    ensures
        forall|k: int| 0 <= k < pre_chars(ps).len() ==> ver_plain_char(#[trigger] pre_chars(ps)[k]),
    decreases ps.len(),
{
    if ps.len() == 0 {
    } else {
        lemma_pre_id_no_dot(ps[0]);
        assert(valid_pre_id(ps[0]));
        let h = pre_id_chars(ps[0]);
        assert(forall|k: int| 0 <= k < h.len() ==> ver_plain_char(#[trigger] h[k])) by {
            match ps[0] {
                PreIdView::Num(n) => {
                    lemma_dec_chars(n as nat);
                },
                PreIdView::Alpha(t) => {
                },
            }
        }
        if ps.len() > 1 {
            assert(valid_pre(ps.drop_first()));
            lemma_pre_chars_plain(ps.drop_first());
            assert(pre_chars(ps) == h + seq!['.'] + pre_chars(ps.drop_first()));
            assert(ver_plain_char('.'));
        }
    }
}

/// A rendered version holds only digits, identifier characters and dots:
/// in particular never a quote, a newline or an opening bracket.
pub proof fn lemma_ver_chars_plain(m: VersionModel)
    requires
        valid_pre(m.pre),
    ensures
        forall|k: int| 0 <= k < ver_chars(m).len() ==> ver_plain_char(#[trigger] ver_chars(m)[k]),
{
    lemma_dec_chars(m.major as nat);
    lemma_dec_chars(m.minor as nat);
    lemma_dec_chars(m.patch as nat);
    lemma_pre_chars_plain(m.pre);
    assert(ver_plain_char('.'));
    assert(ver_plain_char('-'));
}

/// The outcome of a three-way comparison.
#[derive(Clone, Copy, Debug, PartialEq, Eq, Structural)]
pub enum Cmp {
    Lt,
    Eq,
    Gt,
}

impl Version {
    /// Well-formed: the pre-release tag is valid.
    pub open spec fn wf(&self) -> bool {
        valid_pre(self@.pre)
    }

    /// A release version without a pre-release tag.
    pub fn new(major: u64, minor: u64, patch: u64) -> (r: Version)
        ensures
            r.wf(),
            r@ == (VersionModel { major, minor, patch, pre: Seq::empty() }),
    {
        let r = Version { major, minor, patch, pre: Vec::new() };
        proof {
            assert(r@.pre =~= Seq::<PreIdView>::empty());
            assert(r@ =~= (VersionModel { major, minor, patch, pre: Seq::empty() }));
        }
        r
    }

    /// Standard precedence: `self` ranks strictly below `other`.
    pub fn lt(&self, other: &Version) -> (r: bool)
        ensures
            r == ver_lt(self@, other@),
    {
        if self.major != other.major {
            return self.major < other.major;
        }
        if self.minor != other.minor {
            return self.minor < other.minor;
        }
        if self.patch != other.patch {
            return self.patch < other.patch;
        }
        if self.pre.is_empty() {
            return false;
        }
        if other.pre.is_empty() {
            return true;
        }
        match pre_cmp(&self.pre, &other.pre) {
            Cmp::Lt => true,
            _ => false,
        }
    }

    /// The canonical text of this version.
    pub fn render(&self) -> (r: String)
        requires
            self.wf(),
        ensures
            r@ == ver_chars(self@),
    {
        proof {
            reveal_strlit(".");
            reveal_strlit("-");
        }
        let mut out = String::new();
        push_decimal(&mut out, self.major);
        out.append(".");
        push_decimal(&mut out, self.minor);
        out.append(".");
        push_decimal(&mut out, self.patch);
        if self.pre.len() > 0 {
            out.append("-");
            push_pre(&mut out, &self.pre, 0);
            proof {
                assert(self.pre.deep_view().skip(0) =~= self@.pre);
            }
        }
        proof {
            assert(out@ =~= ver_chars(self@));
        }
        out
    }

    /// Parses the canonical text of a version; parsing inverts rendering.
    pub fn parse(s: &str) -> (r: Option<Version>)
        ensures
            r matches Some(v) ==> v.wf() && s@ == ver_chars(v@),
            forall|m: VersionModel| valid_pre(m.pre) && s@ == ver_chars(m) ==> (r matches Some(v)
                && v@ == m),
    {
        let len = s.unicode_len();
        let j1 = match scan_for(s, 0, '.') {
            Some(j) => j,
            None => {
                proof {
                    assert forall|m: VersionModel| valid_pre(m.pre) && s@ == ver_chars(m)
                        implies false by {
                        lemma_ver_parts(m);
                    }
                }
                return None;
            },
        };
        let major = match parse_decimal(s.substring_char(0, j1)) {
            Some(n) => n,
            None => {
                proof {
                    assert forall|m: VersionModel| valid_pre(m.pre) && s@ == ver_chars(m)
                        implies false by {
                        lemma_shape1(s@, m, j1 as int);
                    }
                }
                return None;
            },
        };
        let j2 = match scan_for(s, j1 + 1, '.') {
            Some(j) => j,
            None => {
                proof {
                    assert forall|m: VersionModel| valid_pre(m.pre) && s@ == ver_chars(m)
                        implies false by {
                        lemma_shape1(s@, m, j1 as int);
                        lemma_ver_parts(m);
                    }
                }
                return None;
            },
        };
        let minor = match parse_decimal(s.substring_char(j1 + 1, j2)) {
            Some(n) => n,
            None => {
                proof {
                    assert forall|m: VersionModel| valid_pre(m.pre) && s@ == ver_chars(m)
                        implies false by {
                        lemma_shape2(s@, m, j1 as int, j2 as int);
                    }
                }
                return None;
            },
        };
        let j3 = scan_non_digit(s, j2 + 1);
        let patch = match parse_decimal(s.substring_char(j2 + 1, j3)) {
            Some(n) => n,
            None => {
                proof {
                    assert forall|m: VersionModel| valid_pre(m.pre) && s@ == ver_chars(m)
                        implies false by {
                        lemma_shape3(s@, m, j1 as int, j2 as int, j3 as int);
                    }
                }
                return None;
            },
        };
        if j3 == len {
            let v = Version { major, minor, patch, pre: Vec::new() };
            proof {
                assert(v@.pre =~= Seq::<PreIdView>::empty());
                lemma_canonical_digits(s@.subrange(0, j1 as int));
                lemma_canonical_digits(s@.subrange(j1 + 1 as int, j2 as int));
                lemma_canonical_digits(s@.subrange(j2 + 1 as int, j3 as int));
                lemma_rebuild_core(s@, v@, j1 as int, j2 as int, j3 as int);
                assert(s@ == ver_chars(v@));
                assert forall|m: VersionModel| valid_pre(m.pre) && s@ == ver_chars(m) implies v@
                    == m by {
                    lemma_shape3(s@, m, j1 as int, j2 as int, j3 as int);
                    assert(m.pre.len() == 0);
                    assert(v@ =~= m);
                }
            }
            return Some(v);
        }
        if s.get_char(j3) != '-' {
            proof {
                assert forall|m: VersionModel| valid_pre(m.pre) && s@ == ver_chars(m)
                    implies false by {
                    lemma_shape3(s@, m, j1 as int, j2 as int, j3 as int);
                }
            }
            return None;
        }
        let pre = match parse_pre(s, j3 + 1) {
            Some(ids) => ids,
            None => {
                proof {
                    assert forall|m: VersionModel| valid_pre(m.pre) && s@ == ver_chars(m)
                        implies false by {
                        lemma_shape3(s@, m, j1 as int, j2 as int, j3 as int);
                        assert(m.pre.len() > 0);
                        assert(s@.subrange(j3 + 1, s@.len() as int) == pre_chars(m.pre));
                    }
                }
                return None;
            },
        };
        let v = Version { major, minor, patch, pre };
        proof {
            lemma_canonical_digits(s@.subrange(0, j1 as int));
            lemma_canonical_digits(s@.subrange(j1 + 1 as int, j2 as int));
            lemma_canonical_digits(s@.subrange(j2 + 1 as int, j3 as int));
            lemma_rebuild_core(s@, v@, j1 as int, j2 as int, j3 as int);
            assert(s@ == ver_chars(v@));
            assert forall|m: VersionModel| valid_pre(m.pre) && s@ == ver_chars(m) implies v@
                == m by {
                lemma_shape3(s@, m, j1 as int, j2 as int, j3 as int);
                assert(s@.subrange(j3 + 1, s@.len() as int) == pre_chars(m.pre));
                assert(v@ =~= m);
            }
        }
        Some(v)
    }
}

/// Rebuilds a rendering from the parsed pieces: when the numeric parts
/// and the tag stand at the parser's positions, the whole text is the
/// model's rendering.
#[verifier::rlimit(50)]
proof fn lemma_rebuild_core(s: Seq<char>, m: VersionModel, j1: int, j2: int, j3: int)
    requires
        0 <= j1 < s.len() && s[j1] == '.',
        j1 + 1 <= j2 < s.len() && s[j2] == '.',
        j2 + 1 <= j3 <= s.len(),
        s.subrange(0, j1) == dec_chars(m.major as nat),
        s.subrange(j1 + 1, j2) == dec_chars(m.minor as nat),
        s.subrange(j2 + 1, j3) == dec_chars(m.patch as nat),
        m.pre.len() == 0 ==> j3 == s.len(),
        m.pre.len() > 0 ==> j3 < s.len() && s[j3] == '-' && s.subrange(j3 + 1, s.len() as int)
            == pre_chars(m.pre),
    ensures
        s == ver_chars(m),
{
    let a = dec_chars(m.major as nat);
    let b = dec_chars(m.minor as nat);
    let c = dec_chars(m.patch as nat);
    assert(a.len() == j1);
    assert(b.len() == j2 - j1 - 1);
    assert(c.len() == j3 - j2 - 1);
    assert(forall|k: int| 0 <= k < j1 ==> #[trigger] s[k] == a[k]) by {
        assert(forall|k: int| 0 <= k < j1 ==> s.subrange(0, j1)[k] == s[k]);
    }
    assert(forall|k: int| 0 <= k < b.len() ==> #[trigger] b[k] == s[j1 + 1 + k]) by {
        assert(forall|k: int| 0 <= k < b.len() ==> #[trigger] s.subrange(j1 + 1, j2)[k] == s[j1 + 1 + k]);
    }
    assert(forall|k: int| 0 <= k < c.len() ==> #[trigger] c[k] == s[j2 + 1 + k]) by {
        assert(forall|k: int| 0 <= k < c.len() ==> #[trigger] s.subrange(j2 + 1, j3)[k] == s[j2 + 1 + k]);
    }
    if m.pre.len() == 0 {
        assert(s =~= ver_chars(m));
    } else {
        let p = pre_chars(m.pre);
        assert(forall|k: int| 0 <= k < p.len() ==> #[trigger] p[k] == s[j3 + 1 + k]) by {
            assert(forall|k: int| 0 <= k < p.len() ==> #[trigger] s.subrange(j3 + 1, s.len() as int)[k]
                == s[j3 + 1 + k]);
        }
        assert(p.len() == s.len() - j3 - 1);
        assert(s =~= ver_chars(m));
    }
}

/// The layout of a rendered version: the numeric pieces stand where they
/// must, separated by dots, with the tag after a hyphen.
proof fn lemma_ver_parts(m: VersionModel)
    requires
        valid_pre(m.pre),
    ensures
        ({
            let s = ver_chars(m);
            let a = dec_chars(m.major as nat);
            let b = dec_chars(m.minor as nat);
            let c = dec_chars(m.patch as nat);
            &&& s.len() == a.len() + 1 + b.len() + 1 + c.len() + (if m.pre.len() == 0 {
                0int
            } else {
                1 + pre_chars(m.pre).len() as int
            })
            &&& forall|k: int| 0 <= k < a.len() ==> #[trigger] s[k] == a[k]
            &&& s[a.len() as int] == '.'
            &&& forall|k: int| 0 <= k < b.len() ==> #[trigger] s[a.len() + 1 + k] == b[k]
            &&& s[a.len() + 1 + b.len() as int] == '.'
            &&& forall|k: int|
                0 <= k < c.len() ==> #[trigger] s[a.len() + 1 + b.len() + 1 + k] == c[k]
            &&& m.pre.len() > 0 ==> s[a.len() + 1 + b.len() + 1 + c.len() as int] == '-'
            &&& m.pre.len() > 0 ==> s.subrange(
                a.len() + 1 + b.len() + 1 + c.len() + 1 as int,
                s.len() as int,
            ) == pre_chars(m.pre)
        }),
{
    let s = ver_chars(m);
    let a = dec_chars(m.major as nat);
    let b = dec_chars(m.minor as nat);
    let c = dec_chars(m.patch as nat);
    lemma_dec_chars(m.major as nat);
    lemma_dec_chars(m.minor as nat);
    lemma_dec_chars(m.patch as nat);
    if m.pre.len() > 0 {
        assert(s.subrange(a.len() + 1 + b.len() + 1 + c.len() + 1 as int, s.len() as int)
            =~= pre_chars(m.pre));
    }
}

/// Given the position of the first dot, the text up to it is the major
/// number's canonical rendering.
proof fn lemma_shape1(s: Seq<char>, m: VersionModel, j1: int)
    requires
        valid_pre(m.pre),
        s == ver_chars(m),
        0 <= j1 < s.len() && s[j1] == '.',
        forall|k: int| 0 <= k < j1 ==> s[k] != '.',
    ensures
        j1 == dec_chars(m.major as nat).len(),
        s.subrange(0, j1) == dec_chars(m.major as nat),
        dec_ok(s.subrange(0, j1)),
        digits_val(s.subrange(0, j1)) == m.major,
        j1 + 1 <= s.len(),
{
    lemma_ver_parts(m);
    let a = dec_chars(m.major as nat);
    lemma_dec_chars(m.major as nat);
    let la = a.len() as int;
    assert(forall|k: int| 0 <= k < la ==> is_digit(#[trigger] s[k]));
    assert(forall|k: int| 0 <= k < la ==> #[trigger] s[k] != '.');
    assert(j1 == la) by {
        if j1 < la {
            assert(s[j1] != '.');
        }
        if j1 > la {
            assert(s[la] != '.');
        }
    }
    assert(s.subrange(0, j1) =~= a);
}

/// Adds the position of the second dot: the text between the dots is the
/// minor number's canonical rendering.
proof fn lemma_shape2(s: Seq<char>, m: VersionModel, j1: int, j2: int)
    requires
        valid_pre(m.pre),
        s == ver_chars(m),
        0 <= j1 < s.len() && s[j1] == '.',
        forall|k: int| 0 <= k < j1 ==> s[k] != '.',
        j1 + 1 <= j2 < s.len() && s[j2] == '.',
        forall|k: int| j1 + 1 <= k < j2 ==> s[k] != '.',
    ensures
        j1 == dec_chars(m.major as nat).len(),
        j2 == j1 + 1 + dec_chars(m.minor as nat).len(),
        digits_val(s.subrange(0, j1)) == m.major,
        dec_ok(s.subrange(0, j1)),
        s.subrange(j1 + 1, j2) == dec_chars(m.minor as nat),
        dec_ok(s.subrange(j1 + 1, j2)),
        digits_val(s.subrange(j1 + 1, j2)) == m.minor,
        j2 + 1 <= s.len(),
{
    lemma_shape1(s, m, j1);
    lemma_ver_parts(m);
    let b = dec_chars(m.minor as nat);
    lemma_dec_chars(m.minor as nat);
    let lb = b.len() as int;
    assert(forall|k: int| j1 + 1 <= k < j1 + 1 + lb ==> is_digit(#[trigger] s[k]));
    assert(forall|k: int| j1 + 1 <= k < j1 + 1 + lb ==> #[trigger] s[k] != '.');
    assert(s[j1 + 1 + lb] == '.');
    assert(j2 == j1 + 1 + lb) by {
        if j2 < j1 + 1 + lb {
            assert(s[j2] != '.');
        }
        if j2 > j1 + 1 + lb {
            assert(s[j1 + 1 + lb] != '.');
        }
    }
    assert(s.subrange(j1 + 1, j2) =~= b);
}

/// Adds the end of the patch digits: the patch rendering, and the
/// pre-release layout after it.
proof fn lemma_shape3(s: Seq<char>, m: VersionModel, j1: int, j2: int, j3: int)
    requires
        valid_pre(m.pre),
        s == ver_chars(m),
        0 <= j1 < s.len() && s[j1] == '.',
        forall|k: int| 0 <= k < j1 ==> s[k] != '.',
        j1 + 1 <= j2 < s.len() && s[j2] == '.',
        forall|k: int| j1 + 1 <= k < j2 ==> s[k] != '.',
        j2 + 1 <= j3 <= s.len(),
        forall|k: int| j2 + 1 <= k < j3 ==> is_digit(s[k]),
        j3 < s.len() ==> !is_digit(s[j3 as int]),
    ensures
        digits_val(s.subrange(0, j1)) == m.major,
        dec_ok(s.subrange(0, j1)),
        digits_val(s.subrange(j1 + 1, j2)) == m.minor,
        dec_ok(s.subrange(j1 + 1, j2)),
        s.subrange(j2 + 1, j3) == dec_chars(m.patch as nat),
        dec_ok(s.subrange(j2 + 1, j3)),
        digits_val(s.subrange(j2 + 1, j3)) == m.patch,
        m.pre.len() == 0 <==> j3 == s.len(),
        m.pre.len() > 0 ==> j3 < s.len() && s[j3] == '-' && s.subrange(j3 + 1, s.len() as int)
            == pre_chars(m.pre),
{
    lemma_shape2(s, m, j1, j2);
    lemma_ver_parts(m);
    let c = dec_chars(m.patch as nat);
    lemma_dec_chars(m.patch as nat);
    let lc = c.len() as int;
    let p3 = j2 + 1 + lc;
    assert(forall|k: int| j2 + 1 <= k < p3 ==> is_digit(#[trigger] s[k]));
    if m.pre.len() == 0 {
        assert(s.len() == p3);
        assert(j3 == p3) by {
            if j3 < p3 {
                assert(is_digit(s[j3]));
            }
        }
    } else {
        assert(s[p3] == '-');
        assert(!is_digit('-'));
        assert(j3 == p3) by {
            if j3 < p3 {
                assert(is_digit(s[j3]));
                assert(j3 < s.len());
            }
            if j3 > p3 {
                assert(is_digit(s[p3]));
            }
        }
        assert(s.subrange(j3 + 1, s.len() as int) =~= pre_chars(m.pre));
    }
    assert(s.subrange(j2 + 1, j3) =~= c);
}

/// First position at or after `i` that does not hold a digit, or the
/// length.
fn scan_non_digit(s: &str, i: usize) -> (r: usize)
    requires
        i <= s@.len(),
    ensures
        i <= r <= s@.len(),
        forall|k: int| i <= k < r ==> is_digit(s@[k]),
        r < s@.len() ==> !is_digit(s@[r as int]),
{
    let m = s.unicode_len();
    let mut j: usize = i;
    while j < m
        invariant
            i <= j <= m,
            m == s@.len(),
            forall|k: int| i <= k < j ==> is_digit(s@[k]),
        decreases m - j,
    {
        let c = s.get_char(j);
        if !(c >= '0' && c <= '9') {
            return j;
        }
        j = j + 1;
    }
    m
}

/// Appends the identifiers from position `k` on, joined by dots.
fn push_pre(out: &mut String, ids: &Vec<PreId>, k: usize)
    requires
        k < ids@.len(),
    ensures
        final(out)@ == old(out)@ + pre_chars(ids.deep_view().skip(k as int)),
    decreases ids@.len() - k,
{
    proof {
        reveal_strlit(".");
    }
    let n_ids = ids.len();
    match &ids[k] {
        PreId::Num(n) => push_decimal(out, *n),
        PreId::Alpha(t) => out.append(t.as_str()),
    }
    if k + 1 < n_ids {
        out.append(".");
        push_pre(out, ids, k + 1);
    }
    proof {
        let dv = ids.deep_view();
        assert(dv.skip(k as int)[0] == dv[k as int]);
        assert(pre_id_chars(dv[k as int]) == match ids[k as int] {
            PreId::Num(n) => dec_chars(n as nat),
            PreId::Alpha(t) => t@,
        });
        if k + 1 < ids@.len() {
            assert(dv.skip(k as int).drop_first() =~= dv.skip(k + 1));
            assert(dv.skip(k as int).len() > 1);
            assert(final(out)@ =~= old(out)@ + pre_chars(dv.skip(k as int)));
        } else {
            assert(dv.skip(k as int).len() == 1);
            assert(final(out)@ =~= old(out)@ + pre_chars(dv.skip(k as int)));
        }
    }
}

/// Classifies one identifier: all digits means numeric (canonical form
/// only), anything else alphanumeric over the identifier alphabet.
fn classify_pre_id(piece: &str) -> (r: Option<PreId>)
    ensures
        r matches Some(id) ==> valid_pre_id(id@) && piece@ == pre_id_chars(id@),
        forall|p: PreIdView| valid_pre_id(p) && piece@ == pre_id_chars(p) ==> (r matches Some(id)
            && id@ == p),
{
    let n = piece.unicode_len();
    if n == 0 {
        proof {
            assert forall|p: PreIdView| valid_pre_id(p) && piece@ == pre_id_chars(p) implies false by {
                match p {
                    PreIdView::Num(v) => {
                        lemma_dec_chars(v as nat);
                    },
                    PreIdView::Alpha(_) => {
                    },
                }
            }
        }
        return None;
    }
    let mut digits_only = true;
    let mut j: usize = 0;
    while j < n
        invariant
            0 <= j <= n,
            n == piece@.len(),
            forall|k: int| 0 <= k < j ==> ident_char(#[trigger] piece@[k]),
            digits_only == all_digits(piece@.subrange(0, j as int)),
        decreases n - j,
    {
        let c = piece.get_char(j);
        let code = c as u32;
        let is_d = code >= 48 && code <= 57;
        let ok = is_d || (code >= 97 && code <= 122) || (code >= 65 && code <= 90) || code == 45;
        if !ok {
            proof {
                assert(!ident_char(piece@[j as int]));
                assert forall|p: PreIdView| valid_pre_id(p) && piece@ == pre_id_chars(p) implies false by {
                    match p {
                        PreIdView::Num(v) => {
                            lemma_dec_chars(v as nat);
                            assert(is_digit(piece@[j as int]));
                        },
                        PreIdView::Alpha(_) => {
                        },
                    }
                }
            }
            return None;
        }
        proof {
            assert(piece@.subrange(0, j + 1 as int).drop_last() =~= piece@.subrange(0, j as int));
            assert(piece@.subrange(0, j + 1 as int).last() == piece@[j as int]);
        }
        digits_only = digits_only && is_d;
        j = j + 1;
    }
    proof {
        assert(piece@.subrange(0, n as int) =~= piece@);
    }
    if digits_only {
        match parse_decimal(piece) {
            Some(v) => {
                proof {
                    lemma_canonical_digits(piece@);
                    assert(piece@ == pre_id_chars(PreIdView::Num(v)));
                    assert forall|p: PreIdView| valid_pre_id(p) && piece@ == pre_id_chars(p)
                        implies PreIdView::Num(v) == p by {
                        match p {
                            PreIdView::Num(w) => {
                                lemma_dec_chars(w as nat);
                                assert(digits_val(piece@) == w);
                            },
                            PreIdView::Alpha(t) => {
                                assert(all_digits(t));
                            },
                        }
                    }
                }
                Some(PreId::Num(v))
            },
            None => {
                proof {
                    assert forall|p: PreIdView| valid_pre_id(p) && piece@ == pre_id_chars(p)
                        implies false by {
                        match p {
                            PreIdView::Num(w) => {
                                lemma_dec_chars(w as nat);
                                assert(dec_ok(piece@));
                            },
                            PreIdView::Alpha(t) => {
                                assert(all_digits(t));
                            },
                        }
                    }
                }
                None
            },
        }
    } else {
        let id = PreId::Alpha(piece.to_owned());
        proof {
            assert(valid_pre_id(id@));
            assert forall|p: PreIdView| valid_pre_id(p) && piece@ == pre_id_chars(p) implies id@
                == p by {
                match p {
                    PreIdView::Num(w) => {
                        lemma_dec_chars(w as nat);
                    },
                    PreIdView::Alpha(t) => {
                        assert(id@ =~= p);
                    },
                }
            }
        }
        Some(id)
    }
}

/// Parses a dot-separated, nonempty run of identifiers from `i` to the
/// end.
fn parse_pre(s: &str, i: usize) -> (r: Option<Vec<PreId>>)
    requires
        i <= s@.len(),
    ensures
        r matches Some(ids) ==> valid_pre(ids.deep_view()) && ids@.len() > 0 && s@.subrange(
            i as int,
            s@.len() as int,
        ) == pre_chars(ids.deep_view()),
        forall|ps: Seq<PreIdView>| valid_pre(ps) && ps.len() > 0 && s@.subrange(
            i as int,
            s@.len() as int,
        ) == pre_chars(ps) ==> (r matches Some(ids) && ids.deep_view() == ps),
    decreases s@.len() - i,
{
    let len = s.unicode_len();
    let cut = match scan_for(s, i, '.') {
        Some(j) => j,
        None => len,
    };
    let piece = s.substring_char(i, cut);
    let id = match classify_pre_id(piece) {
        Some(id) => id,
        None => {
            proof {
                assert forall|ps: Seq<PreIdView>| valid_pre(ps) && ps.len() > 0 && s@.subrange(
                    i as int,
                    s@.len() as int,
                ) == pre_chars(ps) implies false by {
                    lemma_pre_split(s@, i as int, ps);
                    lemma_pin_cut(s@, i as int, cut as int, ps);
                    assert(piece@ =~= pre_id_chars(ps[0]));
                }
            }
            return None;
        },
    };
    if cut == len {
        let mut ids: Vec<PreId> = Vec::new();
        ids.push(id);
        proof {
            assert(ids.deep_view() =~= seq![id@]);
            assert(pre_chars(ids.deep_view()) == pre_id_chars(id@));
            assert(s@.subrange(i as int, s@.len() as int) =~= piece@);
            assert forall|ps: Seq<PreIdView>| valid_pre(ps) && ps.len() > 0 && s@.subrange(
                i as int,
                s@.len() as int,
            ) == pre_chars(ps) implies ids.deep_view() == ps by {
                lemma_pre_split(s@, i as int, ps);
                lemma_pin_cut(s@, i as int, cut as int, ps);
                assert(ps.len() == 1) by {
                    if ps.len() > 1 {
                        assert(s@[cut as int] == '.');
                    }
                }
                assert(piece@ =~= pre_id_chars(ps[0]));
                assert(ids.deep_view() =~= ps);
            }
        }
        Some(ids)
    } else {
        let rest = match parse_pre(s, cut + 1) {
            Some(rest) => rest,
            None => {
                proof {
                    assert forall|ps: Seq<PreIdView>| valid_pre(ps) && ps.len() > 0 && s@.subrange(
                        i as int,
                        s@.len() as int,
                    ) == pre_chars(ps) implies false by {
                        lemma_pre_split(s@, i as int, ps);
                        lemma_pin_cut(s@, i as int, cut as int, ps);
                        assert(ps.len() > 1);
                        assert(valid_pre(ps.drop_first()));
                        assert(s@.subrange(cut + 1, s@.len() as int) == pre_chars(ps.drop_first()));
                    }
                }
                return None;
            },
        };
        let ghost rdv = rest.deep_view();
        let mut ids = rest;
        ids.insert(0, id);
        proof {
            assert(ids.deep_view() =~= seq![id@] + rdv) by {
                assert(forall|k: int| 0 <= k < ids@.len() ==> ids.deep_view()[k] == #[trigger] ids@[k]@);
            }
            let dv = ids.deep_view();
            assert(dv.len() >= 2);
            assert(dv[0] == id@);
            assert(dv.drop_first() =~= rdv);
            assert(s@.subrange(i as int, s@.len() as int) =~= pre_id_chars(id@) + seq!['.']
                + pre_chars(rdv)) by {
                assert(forall|k: int| 0 <= k < cut - i ==> s@.subrange(i as int, s@.len() as int)[k]
                    == piece@[k]);
                assert(s@.subrange(i as int, s@.len() as int)[cut - i] == s@[cut as int]);
                assert(forall|k: int| 0 <= k < s@.len() - (cut + 1)
                    ==> s@.subrange(i as int, s@.len() as int)[cut - i + 1 + k] == #[trigger] s@.subrange(
                    cut + 1 as int,
                    s@.len() as int,
                )[k]);
            }
            assert(pre_chars(dv) == pre_id_chars(dv[0]) + seq!['.'] + pre_chars(dv.drop_first()));
            assert(s@.subrange(i as int, s@.len() as int) == pre_chars(dv));
            assert forall|ps: Seq<PreIdView>| valid_pre(ps) && ps.len() > 0 && s@.subrange(
                i as int,
                s@.len() as int,
            ) == pre_chars(ps) implies ids.deep_view() == ps by {
                lemma_pre_split(s@, i as int, ps);
                lemma_pin_cut(s@, i as int, cut as int, ps);
                assert(ps.len() > 1);
                assert(valid_pre(ps.drop_first()));
                assert(s@.subrange(cut + 1, s@.len() as int) == pre_chars(ps.drop_first()));
                assert(rdv == ps.drop_first());
                assert(piece@ =~= pre_id_chars(ps[0]));
                assert(id@ == ps[0]);
                assert(ids.deep_view() =~= ps);
            }
            assert(valid_pre(ids.deep_view())) by {
                assert(forall|k: int| 1 <= k < ids.deep_view().len() ==> ids.deep_view()[k]
                    == rdv[k - 1]);
            }
        }
        Some(ids)
    }
}

/// A well-formed identifier renders to a nonempty run of identifier
/// characters, so never to a dot.
proof fn lemma_pre_id_no_dot(p: PreIdView)
    requires
        valid_pre_id(p),
    ensures
        pre_id_chars(p).len() >= 1,
        forall|k: int| 0 <= k < pre_id_chars(p).len() ==> #[trigger] pre_id_chars(p)[k] != '.',
{
    match p {
        PreIdView::Num(n) => {
            lemma_dec_chars(n as nat);
            assert(forall|k: int| 0 <= k < pre_id_chars(p).len() ==> is_digit(
                #[trigger] pre_id_chars(p)[k],
            ));
        },
        PreIdView::Alpha(t) => {
            assert(forall|k: int| 0 <= k < t.len() ==> ident_char(#[trigger] t[k]));
        },
    }
}

/// Splitting a rendered tag at the end of its first identifier: the
/// identifier's characters come first, a dot and the rest of the tag
/// after them when more identifiers follow.
proof fn lemma_pre_split(s: Seq<char>, i: int, ps: Seq<PreIdView>)
    requires
        0 <= i <= s.len(),
        valid_pre(ps),
        ps.len() > 0,
        s.subrange(i, s.len() as int) == pre_chars(ps),
    ensures
        1 <= pre_id_chars(ps[0]).len(),
        i + pre_id_chars(ps[0]).len() <= s.len(),
        forall|k: int| 0 <= k < pre_id_chars(ps[0]).len() ==> #[trigger] s[i + k] == pre_id_chars(
            ps[0],
        )[k] && s[i + k] != '.',
        ps.len() == 1 ==> i + pre_id_chars(ps[0]).len() == s.len(),
        ps.len() > 1 ==> i + pre_id_chars(ps[0]).len() < s.len() && s[i + pre_id_chars(
            ps[0],
        ).len()] == '.' && s.subrange(i + pre_id_chars(ps[0]).len() + 1, s.len() as int)
            == pre_chars(ps.drop_first()),
{
    assert(valid_pre_id(ps[0]));
    lemma_pre_id_no_dot(ps[0]);
    let h = pre_id_chars(ps[0]);
    let l0 = h.len() as int;
    assert(forall|k: int| 0 <= k < s.len() - i ==> #[trigger] s[i + k] == pre_chars(ps)[k]);
    if ps.len() == 1 {
        assert(pre_chars(ps) == h);
    } else {
        assert(pre_chars(ps) == h + seq!['.'] + pre_chars(ps.drop_first()));
        assert(forall|k: int| 0 <= k < l0 ==> pre_chars(ps)[k] == h[k]);
        assert(pre_chars(ps)[l0] == '.');
        assert(s.len() - i == pre_chars(ps).len());
        assert(pre_chars(ps).len() == l0 + 1 + pre_chars(ps.drop_first()).len());
        assert forall|j: int| 0 <= j < s.len() - (i + l0 + 1) implies s[i + l0 + 1 + j]
            == pre_chars(ps.drop_first())[j] by {
            assert(s[i + (l0 + 1 + j)] == pre_chars(ps)[l0 + 1 + j]);
        }
        assert(s.subrange(i + l0 + 1, s.len() as int) =~= pre_chars(ps.drop_first()));
    }
}

/// Under the splitting facts, the first dot at or after `i` (or the end
/// of the text when there is none) stands exactly past the first
/// identifier.
proof fn lemma_pin_cut(s: Seq<char>, i: int, cut: int, ps: Seq<PreIdView>)
    requires
        0 <= i <= s.len(),
        valid_pre(ps),
        ps.len() > 0,
        s.subrange(i, s.len() as int) == pre_chars(ps),
        i <= cut <= s.len(),
        cut < s.len() ==> s[cut] == '.' && forall|k: int| i <= k < cut ==> s[k] != '.',
        cut == s.len() ==> forall|k: int| i <= k < s.len() ==> s[k] != '.',
    ensures
        cut == i + pre_id_chars(ps[0]).len(),
        ps.len() > 1 <==> cut < s.len(),
{
    lemma_pre_split(s, i, ps);
    let l0 = pre_id_chars(ps[0]).len() as int;
    if ps.len() == 1 {
        assert(cut == s.len()) by {
            if cut < s.len() {
                assert(s[cut] == '.');
                assert(s[i + (cut - i)] != '.');
            }
        }
    } else {
        assert(s[i + l0] == '.');
        assert(cut < s.len()) by {
            if cut == s.len() {
                assert(s[i + l0] != '.');
            }
        }
        assert(cut == i + l0) by {
            if cut < i + l0 {
                assert(s[i + (cut - i)] != '.');
            }
            if cut > i + l0 {
                assert(s[i + l0] != '.');
            }
        }
    }
}

/// Three-way comparison of pre-release tags by standard precedence.
fn pre_cmp(a: &Vec<PreId>, b: &Vec<PreId>) -> (r: Cmp)
    ensures
        (r == Cmp::Lt) == pre_lt(a.deep_view(), b.deep_view()),
        (r == Cmp::Eq) == (a.deep_view() == b.deep_view()),
        (r == Cmp::Gt) == pre_lt(b.deep_view(), a.deep_view()),
{
    let alen = a.len();
    let blen = b.len();
    proof {
        assert(a.deep_view().skip(0) =~= a.deep_view());
        assert(b.deep_view().skip(0) =~= b.deep_view());
    }
    let mut k: usize = 0;
    while k < alen && k < blen
        invariant
            0 <= k <= alen,
            0 <= k <= blen,
            alen == a@.len(),
            blen == b@.len(),
            pre_lt(a.deep_view(), b.deep_view()) == pre_lt(
                a.deep_view().skip(k as int),
                b.deep_view().skip(k as int),
            ),
            pre_lt(b.deep_view(), a.deep_view()) == pre_lt(
                b.deep_view().skip(k as int),
                a.deep_view().skip(k as int),
            ),
            (a.deep_view() == b.deep_view()) == (a.deep_view().skip(k as int) == b.deep_view().skip(
                k as int,
            )),
        decreases alen - k,
    {
        let c = pre_id_cmp(&a[k], &b[k]);
        proof {
            let adv = a.deep_view();
            let bdv = b.deep_view();
            assert(adv.skip(k as int)[0] == adv[k as int]);
            assert(bdv.skip(k as int)[0] == bdv[k as int]);
            assert(adv.skip(k as int).drop_first() =~= adv.skip(k + 1));
            assert(bdv.skip(k as int).drop_first() =~= bdv.skip(k + 1));
        }
        match c {
            Cmp::Lt => {
                return Cmp::Lt;
            },
            Cmp::Gt => {
                return Cmp::Gt;
            },
            Cmp::Eq => {
                proof {
                    let adv = a.deep_view();
                    let bdv = b.deep_view();
                    assert((adv.skip(k as int) == bdv.skip(k as int)) == (adv.skip(k + 1)
                        == bdv.skip(k + 1))) by {
                        if adv.skip(k + 1) == bdv.skip(k + 1) {
                            assert forall|j: int| 0 <= j < adv.skip(k as int).len() implies adv.skip(
                                k as int,
                            )[j] == bdv.skip(k as int)[j] by {
                                if j > 0 {
                                    assert(adv.skip(k + 1)[j - 1] == bdv.skip(k + 1)[j - 1]);
                                }
                            }
                            assert(adv.skip(k as int) =~= bdv.skip(k as int));
                        }
                    }
                }
            },
        }
        k = k + 1;
    }
    proof {
        let adv = a.deep_view();
        let bdv = b.deep_view();
        if k == alen && k == blen {
            assert(adv.skip(k as int) =~= Seq::<PreIdView>::empty());
            assert(bdv.skip(k as int) =~= Seq::<PreIdView>::empty());
            assert(adv.skip(k as int) == bdv.skip(k as int));
        } else if k == alen {
            assert(adv.skip(k as int) =~= Seq::<PreIdView>::empty());
            assert(bdv.skip(k as int).len() > 0);
            assert(adv.skip(k as int) != bdv.skip(k as int));
        } else {
            assert(bdv.skip(k as int) =~= Seq::<PreIdView>::empty());
            assert(adv.skip(k as int).len() > 0);
            assert(adv.skip(k as int) != bdv.skip(k as int));
        }
    }
    if alen == blen {
        Cmp::Eq
    } else if alen < blen {
        Cmp::Lt
    } else {
        Cmp::Gt
    }
}

/// Three-way comparison of single identifiers.
fn pre_id_cmp(a: &PreId, b: &PreId) -> (r: Cmp)
    ensures
        (r == Cmp::Lt) == pre_id_lt(a@, b@),
        (r == Cmp::Eq) == (a@ == b@),
        (r == Cmp::Gt) == pre_id_lt(b@, a@),
{
    match (a, b) {
        (PreId::Num(x), PreId::Num(y)) => {
            if x < y {
                Cmp::Lt
            } else if x == y {
                Cmp::Eq
            } else {
                Cmp::Gt
            }
        },
        (PreId::Num(_), PreId::Alpha(_)) => Cmp::Lt,
        (PreId::Alpha(_), PreId::Num(_)) => Cmp::Gt,
        (PreId::Alpha(x), PreId::Alpha(y)) => str_cmp(x.as_str(), y.as_str()),
    }
}

/// Three-way lexicographic comparison of character sequences.
fn str_cmp(a: &str, b: &str) -> (r: Cmp)
    ensures
        (r == Cmp::Lt) == chars_lt(a@, b@),
        (r == Cmp::Eq) == (a@ == b@),
        (r == Cmp::Gt) == chars_lt(b@, a@),
{
    let alen = a.unicode_len();
    let blen = b.unicode_len();
    proof {
        assert(a@.skip(0) =~= a@);
        assert(b@.skip(0) =~= b@);
    }
    let mut k: usize = 0;
    while k < alen && k < blen
        invariant
            0 <= k <= alen,
            0 <= k <= blen,
            alen == a@.len(),
            blen == b@.len(),
            chars_lt(a@, b@) == chars_lt(a@.skip(k as int), b@.skip(k as int)),
            chars_lt(b@, a@) == chars_lt(b@.skip(k as int), a@.skip(k as int)),
            (a@ == b@) == (a@.skip(k as int) == b@.skip(k as int)),
        decreases alen - k,
    {
        let ca = a.get_char(k);
        let cb = b.get_char(k);
        proof {
            assert(a@.skip(k as int)[0] == a@[k as int]);
            assert(b@.skip(k as int)[0] == b@[k as int]);
            assert(a@.skip(k as int).drop_first() =~= a@.skip(k + 1));
            assert(b@.skip(k as int).drop_first() =~= b@.skip(k + 1));
        }
        if ca != cb {
            if (ca as u32) < (cb as u32) {
                return Cmp::Lt;
            } else {
                return Cmp::Gt;
            }
        }
        proof {
            assert((a@.skip(k as int) == b@.skip(k as int)) == (a@.skip(k + 1) == b@.skip(k + 1)))
                by {
                if a@.skip(k + 1) == b@.skip(k + 1) {
                    assert forall|j: int| 0 <= j < a@.skip(k as int).len() implies a@.skip(
                        k as int,
                    )[j] == b@.skip(k as int)[j] by {
                        if j > 0 {
                            assert(a@.skip(k + 1)[j - 1] == b@.skip(k + 1)[j - 1]);
                        }
                    }
                    assert(a@.skip(k as int) =~= b@.skip(k as int));
                }
            }
        }
        k = k + 1;
    }
    proof {
        if k == alen && k == blen {
            assert(a@.skip(k as int) =~= Seq::<char>::empty());
            assert(b@.skip(k as int) =~= Seq::<char>::empty());
        } else if k == alen {
            assert(a@.skip(k as int) =~= Seq::<char>::empty());
            assert(b@.skip(k as int).len() > 0);
        } else {
            assert(b@.skip(k as int) =~= Seq::<char>::empty());
            assert(a@.skip(k as int).len() > 0);
        }
    }
    if alen == blen {
        Cmp::Eq
    } else if alen < blen {
        Cmp::Lt
    } else {
        Cmp::Gt
    }
}

} // verus!
