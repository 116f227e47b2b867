//! The state-file codec: the configuration's canonical text, a renderer
//! that produces it, and a parser that inverts the renderer — writing a
//! configuration and reading it back reproduces the same model.

use vstd::prelude::*;
use crate::config::{config_wf, plain_text, GlobalConfig, LauncherConfig, LauncherConfigModel};
use crate::policy::{state_wf, valid_ts, AppState, AppStateModel, MAX_TIMESTAMP};
use crate::text::{match_lit, prefix_at, scan_for};
use crate::time::{format_rfc3339, parse_rfc3339, rfc3339_of, stamp_text_ok};
use crate::version::{
    lemma_ver_chars_plain, valid_pre, ver_chars, ver_plain_char, Version, VersionModel,
};

verus! {

/// The line carrying a stored version, or nothing.
pub open spec fn ver_line_chars(v: Option<VersionModel>) -> Seq<char> {
    match v {
        None => Seq::empty(),
        Some(vm) => ("version = \"")@ + ver_chars(vm) + ("\"\n")@,
    }
}

/// The line carrying the last check time, or nothing.
pub open spec fn check_line_chars(t: Option<i64>) -> Seq<char> {
    match t {
        None => Seq::empty(),
        Some(tt) => ("last_check = \"")@ + rfc3339_of(tt) + ("\"\n")@,
    }
}

/// One unit's section: its header and its optional lines.
pub open spec fn section_chars(header: Seq<char>, s: AppStateModel) -> Seq<char> {
    header + ver_line_chars(s.version) + check_line_chars(s.last_check)
}

/// The whole state file's canonical text.
pub open spec fn config_chars(m: LauncherConfigModel) -> Seq<char> {
    ("[global]\nsystem = \"")@ + m.system + ("\"\n")@ + section_chars(
        ("[launcher]\n")@,
        m.launcher,
    ) + section_chars(("[ri_learn]\n")@, m.ri_learn) + section_chars(("[ri_stack]\n")@, m.ri_stack)
}

/// The stored version, if any, is well-formed.
pub open spec fn ver_opt_wf(ov: Option<VersionModel>) -> bool {
    match ov {
        Some(vm) => valid_pre(vm.pre),
        None => true,
    }
}

/// The timestamp, if any, renders to plain text.  The renderer
/// establishes this through the calendar library; the parser's inversion
/// claim assumes it.
pub open spec fn stamp_ok(ot: Option<i64>) -> bool {
    match ot {
        Some(t) => stamp_text_ok(rfc3339_of(t)),
        None => true,
    }
}

/// Every timestamp of the model renders to plain text.
pub open spec fn stamps_ok(m: LauncherConfigModel) -> bool {
    &&& stamp_ok(m.launcher.last_check)
    &&& stamp_ok(m.ri_learn.last_check)
    &&& stamp_ok(m.ri_stack.last_check)
}

/// What may follow a unit's section: nothing, or another section's
/// opening bracket.
pub open spec fn follows_ok(rest: Seq<char>) -> bool {
    rest.len() == 0 || rest[0] == '['
}

/// The view of an optional parsed version.
pub open spec fn opt_ver_view(o: Option<Version>) -> Option<VersionModel> {
    match o {
        Some(v) => Some(v@),
        None => None,
    }
}

/// Renders one unit's section.
fn render_section(out: &mut String, header: &str, st: &AppState)
    requires
        st.wf(),
    ensures
        final(out)@ == old(out)@ + section_chars(header@, st@),
        stamp_ok(st@.last_check),
{
    out.append(header);
    match &st.version {
        Some(v) => {
            out.append("version = \"");
            let vs = v.render();
            out.append(vs.as_str());
            out.append("\"\n");
        },
        None => {},
    }
    match &st.last_check {
        Some(t) => {
            out.append("last_check = \"");
            let ts = format_rfc3339(*t);
            out.append(ts.as_str());
            out.append("\"\n");
        },
        None => {},
    }
    proof {
        assert(out@ =~= old(out)@ + section_chars(header@, st@));
    }
}

/// Serializes the configuration to its canonical text.
pub fn render_config(c: &LauncherConfig) -> (r: String)
    requires
        c.wf(),
    ensures
        r@ == config_chars(c@),
        stamps_ok(c@),
{
    let mut out = String::new();
    out.append("[global]\nsystem = \"");
    out.append(c.global.system.as_str());
    out.append("\"\n");
    render_section(&mut out, "[launcher]\n", &c.launcher);
    render_section(&mut out, "[ri_learn]\n", &c.ri_learn);
    render_section(&mut out, "[ri_stack]\n", &c.ri_stack);
    proof {
        assert(out@ =~= config_chars(c@));
    }
    out
}

/// One character of a part standing at `p`.
proof fn lemma_prefix_index(s: Seq<char>, p: int, w: Seq<char>, k: int)
    requires
        prefix_at(s, p, w),
        0 <= k < w.len(),
    ensures
        s[p + k] == w[k],
{
}

/// Writing the configuration and reading it back reproduces the same
/// model: the renderer and the parser invert each other, for every
/// well-formed configuration.
pub fn write_read_round_trip(c: &LauncherConfig) -> (r: Option<LauncherConfig>)
    requires
        c.wf(),
    ensures
        r matches Some(d) && d@ == c@,
{
    let text = render_config(c);
    parse_config(text.as_str())
}

/// A concatenation standing at `p` splits into its three parts in place.
proof fn lemma_prefix_parts3(s: Seq<char>, p: int, a: Seq<char>, b: Seq<char>, c: Seq<char>)
    requires
        prefix_at(s, p, a + b + c),
    ensures
        prefix_at(s, p, a),
        prefix_at(s, p + a.len(), b),
        prefix_at(s, p + a.len() + b.len(), c),
{
    let w = a + b + c;
    assert(forall|k: int| 0 <= k < a.len() ==> w[k] == a[k]);
    assert(forall|k: int| 0 <= k < b.len() ==> w[a.len() + k] == b[k]);
    assert(forall|k: int| 0 <= k < c.len() ==> w[a.len() + b.len() + k] == c[k]);
}

/// A suffix equality splits at a part boundary: the first part stands at
/// the split point and the remainder carries on.
proof fn lemma_tail_subrange(s: Seq<char>, a: int, x: Seq<char>, y: Seq<char>)
    requires
        0 <= a <= s.len(),
        s.subrange(a, s.len() as int) == x + y,
    ensures
        a + x.len() + y.len() == s.len(),
        prefix_at(s, a, x),
        s.subrange(a + x.len(), s.len() as int) == y,
{
    assert(s.subrange(a, s.len() as int).len() == x.len() + y.len());
    assert(forall|k: int| 0 <= k < s.len() - a ==> #[trigger] (x + y)[k] == s[a + k]) by {
        assert(forall|k: int| 0 <= k < s.len() - a ==> s.subrange(a, s.len() as int)[k] == s[a
            + k]);
    }
    assert forall|k: int| 0 <= k < x.len() implies s[a + k] == x[k] by {
        assert((x + y)[k] == s[a + k]);
    }
    assert forall|j: int| 0 <= j < y.len() implies s.subrange(a + x.len(), s.len() as int)[j]
        == y[j] by {
        assert((x + y)[x.len() + j] == s[a + (x.len() + j)]);
    }
    assert(s.subrange(a + x.len(), s.len() as int) =~= y);
}

/// The first quote after a quote-free body stands right past the body.
proof fn lemma_pin_quote(s: Seq<char>, from: int, body: Seq<char>, jq: int)
    requires
        0 <= from,
        prefix_at(s, from, body),
        forall|k: int| 0 <= k < body.len() ==> #[trigger] body[k] != '"',
        from + body.len() < s.len(),
        s[from + body.len()] == '"',
        from <= jq < s.len(),
        s[jq] == '"',
        forall|k: int| from <= k < jq ==> s[k] != '"',
    ensures
        jq == from + body.len(),
        s.subrange(from, jq) == body,
{
    if jq < from + body.len() {
        assert(s[from + (jq - from)] == body[jq - from]);
        assert(body[jq - from] != '"');
    }
    if jq > from + body.len() {
        assert(s[from + body.len()] != '"');
    }
    assert(s.subrange(from, jq) =~= body);
}

/// Lays out a present version line at `i`: the leading literal, the
/// version's characters free of quotes, the closing quote, the newline.
#[verifier::rlimit(50)]
proof fn lemma_ver_line_split(s: Seq<char>, i: int, vm: VersionModel, tail: Seq<char>)
    requires
        0 <= i <= s.len(),
        valid_pre(vm.pre),
        s.subrange(i, s.len() as int) == ver_line_chars(Some(vm)) + tail,
    ensures
        ver_line_chars(Some(vm)).len() == ("version = \"")@.len() + ver_chars(vm).len() + 2,
        prefix_at(s, i, ("version = \"")@),
        prefix_at(s, i + ("version = \"")@.len(), ver_chars(vm)),
        forall|k: int| 0 <= k < ver_chars(vm).len() ==> #[trigger] ver_chars(vm)[k] != '"',
        i + ("version = \"")@.len() + ver_chars(vm).len() + 1 < s.len(),
        s[i + ("version = \"")@.len() + ver_chars(vm).len()] == '"',
        s[i + ("version = \"")@.len() + ver_chars(vm).len() + 1] == '\n',
        s.subrange(i + ver_line_chars(Some(vm)).len(), s.len() as int) == tail,
{
    reveal_strlit("version = \"");
    reveal_strlit("\"\n");
    lemma_tail_subrange(s, i, ver_line_chars(Some(vm)), tail);
    lemma_prefix_parts3(s, i, ("version = \"")@, ver_chars(vm), ("\"\n")@);
    let pq = i + ("version = \"")@.len() + ver_chars(vm).len();
    lemma_prefix_index(s, pq, ("\"\n")@, 0);
    lemma_prefix_index(s, pq, ("\"\n")@, 1);
    assert(s[pq] == '"');
    assert(s[pq + 1] == '\n');
    lemma_ver_chars_plain(vm);
    assert(forall|k: int| 0 <= k < ver_chars(vm).len() ==> #[trigger] ver_chars(vm)[k] != '"')
        by {
        assert(forall|k: int| 0 <= k < ver_chars(vm).len() ==> ver_plain_char(
            #[trigger] ver_chars(vm)[k],
        ));
    }
}

/// Lays out a present last-check line at `i`.
#[verifier::rlimit(50)]
proof fn lemma_check_line_split(s: Seq<char>, i: int, t: i64, tail: Seq<char>)
    requires
        0 <= i <= s.len(),
        stamp_text_ok(rfc3339_of(t)),
        s.subrange(i, s.len() as int) == check_line_chars(Some(t)) + tail,
    ensures
        check_line_chars(Some(t)).len() == ("last_check = \"")@.len() + rfc3339_of(t).len() + 2,
        prefix_at(s, i, ("last_check = \"")@),
        prefix_at(s, i + ("last_check = \"")@.len(), rfc3339_of(t)),
        forall|k: int| 0 <= k < rfc3339_of(t).len() ==> #[trigger] rfc3339_of(t)[k] != '"',
        i + ("last_check = \"")@.len() + rfc3339_of(t).len() + 1 < s.len(),
        s[i + ("last_check = \"")@.len() + rfc3339_of(t).len()] == '"',
        s[i + ("last_check = \"")@.len() + rfc3339_of(t).len() + 1] == '\n',
        s.subrange(i + check_line_chars(Some(t)).len(), s.len() as int) == tail,
{
    reveal_strlit("last_check = \"");
    reveal_strlit("\"\n");
    lemma_tail_subrange(s, i, check_line_chars(Some(t)), tail);
    lemma_prefix_parts3(s, i, ("last_check = \"")@, rfc3339_of(t), ("\"\n")@);
    let pq = i + ("last_check = \"")@.len() + rfc3339_of(t).len();
    lemma_prefix_index(s, pq, ("\"\n")@, 0);
    lemma_prefix_index(s, pq, ("\"\n")@, 1);
    assert(s[pq] == '"');
    assert(s[pq + 1] == '\n');
    assert(forall|k: int| 0 <= k < rfc3339_of(t).len() ==> #[trigger] rfc3339_of(t)[k] != '"')
        by {
        assert(stamp_text_ok(rfc3339_of(t)));
    }
}

/// Parses the optional version line at `i`.  What follows the line never
/// starts with `v`, so a missing line is never mistaken for a present
/// one.
fn parse_version_line(s: &str, i: usize) -> (r: Option<(Option<Version>, usize)>)
    requires
        i <= s@.len(),
    ensures
        r matches Some(p) ==> ver_opt_wf(opt_ver_view(p.0)) && i <= p.1 <= s@.len() && s@.subrange(
            i as int,
            p.1 as int,
        ) == ver_line_chars(opt_ver_view(p.0)),
        forall|ov: Option<VersionModel>, tail: Seq<char>|
            ver_opt_wf(ov) && s@.subrange(i as int, s@.len() as int) == ver_line_chars(ov) + tail
                && (tail.len() == 0 || tail[0] != 'v') ==> (r matches Some(p) && opt_ver_view(p.0)
                == ov && p.1 == i + ver_line_chars(ov).len()),
{
    proof {
        reveal_strlit("version = \"");
        reveal_strlit("\n");
    }
    let _len: usize = s.unicode_len();
    match match_lit(s, i, "version = \"") {
        None => {
            proof {
                assert forall|ov: Option<VersionModel>, tail: Seq<char>|
                    ver_opt_wf(ov) && s@.subrange(i as int, s@.len() as int) == ver_line_chars(ov)
                        + tail && (tail.len() == 0 || tail[0] != 'v') implies ({
                    let p = (None::<Version>, i as usize);
                    opt_ver_view(p.0) == ov && p.1 == i + ver_line_chars(ov).len()
                }) by {
                    match ov {
                        Some(vm) => {
                            lemma_ver_line_split(s@, i as int, vm, tail);
                        },
                        None => {
                            assert(ver_line_chars(ov).len() == 0);
                        },
                    }
                }
            }
            proof {
                assert(s@.subrange(i as int, i as int) =~= ver_line_chars(
                    opt_ver_view(None::<Version>),
                ));
            }
            Some((None, i))
        },
        Some(iv) => {
            let jq = match scan_for(s, iv, '"') {
                Some(j) => j,
                None => {
                    proof {
                        assert forall|ov: Option<VersionModel>, tail: Seq<char>|
                            ver_opt_wf(ov) && s@.subrange(i as int, s@.len() as int)
                                == ver_line_chars(ov) + tail && (tail.len() == 0 || tail[0] != 'v')
                            implies false by {
                            ver_line_case(s@, i as int, iv as int, ov, tail);
                            match ov {
                                Some(vm) => {
                                    lemma_ver_line_split(s@, i as int, vm, tail);
                                    assert(s@[iv + ver_chars(vm).len()] == '"');
                                },
                                None => {},
                            }
                        }
                    }
                    return None;
                },
            };
            let vtext = s.substring_char(iv, jq);
            let ver = match Version::parse(vtext) {
                Some(v) => v,
                None => {
                    proof {
                        assert forall|ov: Option<VersionModel>, tail: Seq<char>|
                            ver_opt_wf(ov) && s@.subrange(i as int, s@.len() as int)
                                == ver_line_chars(ov) + tail && (tail.len() == 0 || tail[0] != 'v')
                            implies false by {
                            ver_line_case(s@, i as int, iv as int, ov, tail);
                            match ov {
                                Some(vm) => {
                                    lemma_ver_line_split(s@, i as int, vm, tail);
                                    lemma_pin_quote(s@, iv as int, ver_chars(vm), jq as int);
                                    assert(vtext@ == ver_chars(vm));
                                },
                                None => {},
                            }
                        }
                    }
                    return None;
                },
            };
            match match_lit(s, jq + 1, "\n") {
                Some(inl) => {
                    proof {
                        assert forall|ov: Option<VersionModel>, tail: Seq<char>|
                            ver_opt_wf(ov) && s@.subrange(i as int, s@.len() as int)
                                == ver_line_chars(ov) + tail && (tail.len() == 0 || tail[0] != 'v')
                            implies (opt_ver_view(Some(ver)) == ov && inl == i + ver_line_chars(
                            ov,
                        ).len()) by {
                            ver_line_case(s@, i as int, iv as int, ov, tail);
                            match ov {
                                Some(vm) => {
                                    lemma_ver_line_split(s@, i as int, vm, tail);
                                    lemma_pin_quote(
                                        s@,
                                        iv as int,
                                        ver_chars(vm),
                                        jq as int,
                                    );
                                    assert(vtext@ == ver_chars(vm));
                                    assert(ver@ == vm);
                                },
                                None => {},
                            }
                        }
                    }
                    proof {
                        reveal_strlit("\"\n");
                        assert(s@[jq as int] == '"');
                        assert(prefix_at(s@, jq + 1, ("\n")@));
                        lemma_prefix_index(s@, jq + 1, ("\n")@, 0);
                        assert(s@[jq + 1] == '\n');
                        assert(vtext@ == s@.subrange(iv as int, jq as int));
                        assert(vtext@ == ver_chars(ver@));
                        assert(s@.subrange(i as int, inl as int) =~= ("version = \"")@ + ver_chars(
                            ver@,
                        ) + ("\"\n")@) by {
                            assert(forall|k: int| 0 <= k < jq - iv ==> #[trigger] s@.subrange(
                                iv as int,
                                jq as int,
                            )[k] == s@[iv + k]);
                        }
                        assert(s@.subrange(i as int, inl as int) == ver_line_chars(
                            opt_ver_view(Some(ver)),
                        ));
                    }
                    Some((Some(ver), inl))
                },
                None => {
                    proof {
                        assert forall|ov: Option<VersionModel>, tail: Seq<char>|
                            ver_opt_wf(ov) && s@.subrange(i as int, s@.len() as int)
                                == ver_line_chars(ov) + tail && (tail.len() == 0 || tail[0] != 'v')
                            implies false by {
                            ver_line_case(s@, i as int, iv as int, ov, tail);
                            match ov {
                                Some(vm) => {
                                    lemma_ver_line_split(s@, i as int, vm, tail);
                                    lemma_pin_quote(
                                        s@,
                                        iv as int,
                                        ver_chars(vm),
                                        jq as int,
                                    );
                                    assert(s@[jq + 1] == '\n');
                                    assert(prefix_at(s@, jq + 1, ("\n")@));
                                },
                                None => {},
                            }
                        }
                    }
                    None
                },
            }
        },
    }
}

/// When the parser has matched the version literal at `i`, a rendering
/// premise cannot carry a missing version line.
proof fn ver_line_case(s: Seq<char>, i: int, iv: int, ov: Option<VersionModel>, tail: Seq<char>)
    requires
        0 <= i <= s.len(),
        ver_opt_wf(ov),
        s.subrange(i, s.len() as int) == ver_line_chars(ov) + tail,
        tail.len() == 0 || tail[0] != 'v',
        prefix_at(s, i, ("version = \"")@),
        iv == i + ("version = \"")@.len(),
    ensures
        ov is Some,
{
    reveal_strlit("version = \"");
    if ov is None {
        assert(ver_line_chars(ov).len() == 0);
        lemma_tail_subrange(s, i, ver_line_chars(ov), tail);
        if tail.len() == 0 {
            assert(i + ("version = \"")@.len() <= s.len());
        } else {
            assert(s[i] == tail[0]);
            assert(s[i] == ("version = \"")@[0]);
        }
    }
}

/// The timestamp, if any, is in range.
pub open spec fn ts_opt_wf(ot: Option<i64>) -> bool {
    match ot {
        Some(t) => valid_ts(t),
        None => true,
    }
}

/// When the parser has matched the last-check literal at `i`, a
/// rendering premise cannot carry a missing line.
proof fn check_line_case(s: Seq<char>, i: int, ot: Option<i64>, tail: Seq<char>)
    requires
        0 <= i <= s.len(),
        s.subrange(i, s.len() as int) == check_line_chars(ot) + tail,
        tail.len() == 0 || tail[0] != 'l',
        prefix_at(s, i, ("last_check = \"")@),
    ensures
        ot is Some,
{
    reveal_strlit("last_check = \"");
    if ot is None {
        assert(check_line_chars(ot).len() == 0);
        lemma_tail_subrange(s, i, check_line_chars(ot), tail);
        if tail.len() == 0 {
            assert(i + ("last_check = \"")@.len() <= s.len());
        } else {
            assert(s[i] == tail[0]);
            assert(s[i] == ("last_check = \"")@[0]);
        }
    }
}

/// Parses the optional last-check line at `i`.  What follows the line
/// never starts with `l`.
fn parse_check_line(s: &str, i: usize) -> (r: Option<(Option<i64>, usize)>)
    requires
        i <= s@.len(),
    ensures
        r matches Some(p) ==> ts_opt_wf(p.0) && stamp_ok(p.0) && i <= p.1 <= s@.len()
            && s@.subrange(i as int, p.1 as int) == check_line_chars(p.0),
        forall|ot: Option<i64>, tail: Seq<char>|
            ts_opt_wf(ot) && stamp_ok(ot) && s@.subrange(i as int, s@.len() as int)
                == check_line_chars(ot) + tail && (tail.len() == 0 || tail[0] != 'l') ==> (
            r matches Some(p) && p.0 == ot && p.1 == i + check_line_chars(ot).len()),
{
    proof {
        reveal_strlit("last_check = \"");
        reveal_strlit("\n");
    }
    let _len: usize = s.unicode_len();
    match match_lit(s, i, "last_check = \"") {
        None => {
            proof {
                assert forall|ot: Option<i64>, tail: Seq<char>|
                    ts_opt_wf(ot) && stamp_ok(ot) && s@.subrange(i as int, s@.len() as int)
                        == check_line_chars(ot) + tail && (tail.len() == 0 || tail[0] != 'l')
                    implies (ot is None && check_line_chars(ot).len() == 0) by {
                    match ot {
                        Some(t) => {
                            lemma_check_line_split(s@, i as int, t, tail);
                        },
                        None => {
                            assert(check_line_chars(ot).len() == 0);
                        },
                    }
                }
            }
            proof {
                assert(s@.subrange(i as int, i as int) =~= check_line_chars(None::<i64>));
            }
            Some((None, i))
        },
        Some(it) => {
            let jq = match scan_for(s, it, '"') {
                Some(j) => j,
                None => {
                    proof {
                        assert forall|ot: Option<i64>, tail: Seq<char>|
                            ts_opt_wf(ot) && stamp_ok(ot) && s@.subrange(i as int, s@.len() as int)
                                == check_line_chars(ot) + tail && (tail.len() == 0 || tail[0]
                                != 'l') implies false by {
                            check_line_case(s@, i as int, ot, tail);
                            match ot {
                                Some(t) => {
                                    lemma_check_line_split(s@, i as int, t, tail);
                                    assert(s@[it + rfc3339_of(t).len()] == '"');
                                },
                                None => {},
                            }
                        }
                    }
                    return None;
                },
            };
            let ttext = s.substring_char(it, jq);
            let parsed = parse_rfc3339(ttext);
            let t = match parsed {
                Some(t) => t,
                None => {
                    proof {
                        assert forall|ot: Option<i64>, tail: Seq<char>|
                            ts_opt_wf(ot) && stamp_ok(ot) && s@.subrange(i as int, s@.len() as int)
                                == check_line_chars(ot) + tail && (tail.len() == 0 || tail[0]
                                != 'l') implies false by {
                            check_line_case(s@, i as int, ot, tail);
                            match ot {
                                Some(u) => {
                                    lemma_check_line_split(s@, i as int, u, tail);
                                    lemma_pin_quote(s@, it as int, rfc3339_of(u), jq as int);
                                    assert(ttext@ == rfc3339_of(u));
                                },
                                None => {},
                            }
                        }
                    }
                    return None;
                },
            };
            if !(0 <= t && t <= MAX_TIMESTAMP) {
                proof {
                    assert forall|ot: Option<i64>, tail: Seq<char>|
                        ts_opt_wf(ot) && stamp_ok(ot) && s@.subrange(i as int, s@.len() as int)
                            == check_line_chars(ot) + tail && (tail.len() == 0 || tail[0] != 'l')
                        implies false by {
                        check_line_case(s@, i as int, ot, tail);
                        match ot {
                            Some(u) => {
                                lemma_check_line_split(s@, i as int, u, tail);
                                lemma_pin_quote(s@, it as int, rfc3339_of(u), jq as int);
                                assert(ttext@ == rfc3339_of(u));
                                assert(parsed == Some(u));
                            },
                            None => {},
                        }
                    }
                }
                return None;
            }
            // Accept only the canonical rendering of the parsed instant,
            // so a parsed line is exactly what the renderer would write.
            let rendered = format_rfc3339(t);
            let canonical = rendered.as_str().unicode_len() == jq - it && (match match_lit(
                s,
                it,
                rendered.as_str(),
            ) {
                Some(_) => true,
                None => false,
            });
            if !canonical {
                proof {
                    assert forall|ot: Option<i64>, tail: Seq<char>|
                        ts_opt_wf(ot) && stamp_ok(ot) && s@.subrange(i as int, s@.len() as int)
                            == check_line_chars(ot) + tail && (tail.len() == 0 || tail[0] != 'l')
                        implies false by {
                        check_line_case(s@, i as int, ot, tail);
                        match ot {
                            Some(u) => {
                                lemma_check_line_split(s@, i as int, u, tail);
                                lemma_pin_quote(s@, it as int, rfc3339_of(u), jq as int);
                                assert(ttext@ == rfc3339_of(u));
                                assert(parsed == Some(u));
                                assert(rendered@ == rfc3339_of(t));
                                assert(prefix_at(s@, it as int, rendered@));
                            },
                            None => {},
                        }
                    }
                }
                return None;
            }
            proof {
                assert(s@.subrange(it as int, jq as int) =~= rendered@) by {
                    assert(prefix_at(s@, it as int, rendered@));
                    assert(forall|k: int| 0 <= k < jq - it ==> #[trigger] s@.subrange(
                        it as int,
                        jq as int,
                    )[k] == s@[it + k]);
                }
            }
            match match_lit(s, jq + 1, "\n") {
                Some(inl) => {
                    proof {
                        assert forall|ot: Option<i64>, tail: Seq<char>|
                            ts_opt_wf(ot) && stamp_ok(ot) && s@.subrange(i as int, s@.len() as int)
                                == check_line_chars(ot) + tail && (tail.len() == 0 || tail[0]
                                != 'l') implies (ot == Some(t) && inl == i + check_line_chars(
                            ot,
                        ).len()) by {
                            check_line_case(s@, i as int, ot, tail);
                            match ot {
                                Some(u) => {
                                    lemma_check_line_split(s@, i as int, u, tail);
                                    lemma_pin_quote(s@, it as int, rfc3339_of(u), jq as int);
                                    assert(ttext@ == rfc3339_of(u));
                                    assert(parsed == Some(u));
                                },
                                None => {},
                            }
                        }
                        reveal_strlit("\"\n");
                        assert(s@[jq as int] == '"');
                        assert(prefix_at(s@, jq + 1, ("\n")@));
                        lemma_prefix_index(s@, jq + 1, ("\n")@, 0);
                        assert(s@[jq + 1] == '\n');
                        assert(s@.subrange(it as int, jq as int) == rfc3339_of(t));
                        assert(s@.subrange(i as int, inl as int) =~= ("last_check = \"")@
                            + rfc3339_of(t) + ("\"\n")@) by {
                            assert(forall|k: int| 0 <= k < jq - it ==> #[trigger] s@.subrange(
                                it as int,
                                jq as int,
                            )[k] == s@[it + k]);
                        }
                        assert(s@.subrange(i as int, inl as int) == check_line_chars(Some(t)));
                    }
                    Some((Some(t), inl))
                },
                None => {
                    proof {
                        assert forall|ot: Option<i64>, tail: Seq<char>|
                            ts_opt_wf(ot) && stamp_ok(ot) && s@.subrange(i as int, s@.len() as int)
                                == check_line_chars(ot) + tail && (tail.len() == 0 || tail[0]
                                != 'l') implies false by {
                            check_line_case(s@, i as int, ot, tail);
                            match ot {
                                Some(u) => {
                                    lemma_check_line_split(s@, i as int, u, tail);
                                    lemma_pin_quote(s@, it as int, rfc3339_of(u), jq as int);
                                    assert(s@[jq + 1] == '\n');
                                    assert(prefix_at(s@, jq + 1, ("\n")@));
                                },
                                None => {},
                            }
                        }
                    }
                    None
                },
            }
        },
    }
}

/// Splits a section's rendering: the header stands first, the version
/// line follows it with text after it never starting with `v`, the
/// last-check line follows that with text after it never starting with
/// `l`.
proof fn lemma_section_parts(
    s: Seq<char>,
    i: int,
    header: Seq<char>,
    sm: AppStateModel,
    rest: Seq<char>,
)
    requires
        0 <= i <= s.len(),
        state_wf(sm),
        s.subrange(i, s.len() as int) == section_chars(header, sm) + rest,
        follows_ok(rest),
    ensures
        prefix_at(s, i, header),
        i + header.len() <= s.len(),
        s.subrange(i + header.len(), s.len() as int) == ver_line_chars(sm.version) + (
        check_line_chars(sm.last_check) + rest),
        (check_line_chars(sm.last_check) + rest).len() == 0 || (check_line_chars(sm.last_check)
            + rest)[0] != 'v',
        i + header.len() + ver_line_chars(sm.version).len() <= s.len(),
        s.subrange(i + header.len() + ver_line_chars(sm.version).len(), s.len() as int)
            == check_line_chars(sm.last_check) + rest,
        rest.len() == 0 || rest[0] != 'l',
        section_chars(header, sm).len() == header.len() + ver_line_chars(sm.version).len()
            + check_line_chars(sm.last_check).len(),
{
    reveal_strlit("last_check = \"");
    let vline = ver_line_chars(sm.version);
    let cline = check_line_chars(sm.last_check);
    assert(section_chars(header, sm) + rest =~= header + (vline + (cline + rest)));
    lemma_tail_subrange(s, i, header, vline + (cline + rest));
    lemma_tail_subrange(s, i + header.len(), vline, cline + rest);
    if cline.len() > 0 {
        match sm.last_check {
            Some(t) => {
                assert((cline + rest)[0] == ("last_check = \"")@[0]);
            },
            None => {},
        }
    }
    if rest.len() > 0 {
        assert(rest[0] == '[');
    }
}

/// Rebuilds a section from its parsed pieces.
proof fn lemma_section_rebuild(
    s: Seq<char>,
    i: int,
    header: Seq<char>,
    sm: AppStateModel,
    i1: int,
    i2: int,
    i3: int,
)
    requires
        0 <= i,
        prefix_at(s, i, header),
        i1 == i + header.len(),
        i1 <= i2 <= i3 <= s.len(),
        s.subrange(i1, i2) == ver_line_chars(sm.version),
        s.subrange(i2, i3) == check_line_chars(sm.last_check),
    ensures
        s.subrange(i, i3) == section_chars(header, sm),
{
    let vline = ver_line_chars(sm.version);
    let cline = check_line_chars(sm.last_check);
    assert(vline.len() == i2 - i1);
    assert(cline.len() == i3 - i2);
    assert(forall|k: int| 0 <= k < vline.len() ==> #[trigger] vline[k] == s[i1 + k]) by {
        assert(forall|k: int| 0 <= k < i2 - i1 ==> #[trigger] s.subrange(i1, i2)[k] == s[i1 + k]);
    }
    assert(forall|k: int| 0 <= k < cline.len() ==> #[trigger] cline[k] == s[i2 + k]) by {
        assert(forall|k: int| 0 <= k < i3 - i2 ==> #[trigger] s.subrange(i2, i3)[k] == s[i2 + k]);
    }
    assert(s.subrange(i, i3) =~= section_chars(header, sm));
}

/// Rebuilds the whole configuration text from its parsed pieces.
#[verifier::rlimit(50)]
proof fn lemma_config_rebuild(
    s: Seq<char>,
    m: LauncherConfigModel,
    jq: int,
    i1: int,
    i2: int,
    i3: int,
)
    requires
        prefix_at(s, 0, ("[global]\nsystem = \"")@),
        ("[global]\nsystem = \"")@.len() <= jq < s.len(),
        m.system == s.subrange(("[global]\nsystem = \"")@.len() as int, jq),
        s[jq] == '"',
        jq + 1 < s.len(),
        s[jq + 1] == '\n',
        i1 == jq + 2,
        i1 <= i2 <= i3 <= s.len(),
        s.subrange(i1, i2) == section_chars(("[launcher]\n")@, m.launcher),
        s.subrange(i2, i3) == section_chars(("[ri_learn]\n")@, m.ri_learn),
        s.subrange(i3, s.len() as int) == section_chars(("[ri_stack]\n")@, m.ri_stack),
    ensures
        s == config_chars(m),
{
    reveal_strlit("\"\n");
    let glit = ("[global]\nsystem = \"")@;
    let sec1 = section_chars(("[launcher]\n")@, m.launcher);
    let sec2 = section_chars(("[ri_learn]\n")@, m.ri_learn);
    let sec3 = section_chars(("[ri_stack]\n")@, m.ri_stack);
    assert(m.system.len() == jq - glit.len());
    assert(forall|k: int| 0 <= k < m.system.len() ==> #[trigger] m.system[k] == s[glit.len() + k])
        by {
        assert(forall|k: int| 0 <= k < jq - glit.len() ==> #[trigger] s.subrange(
            glit.len() as int,
            jq,
        )[k] == s[glit.len() + k]);
    }
    assert(forall|k: int| 0 <= k < sec1.len() ==> #[trigger] sec1[k] == s[i1 + k]) by {
        assert(forall|k: int| 0 <= k < i2 - i1 ==> #[trigger] s.subrange(i1, i2)[k] == s[i1 + k]);
    }
    assert(forall|k: int| 0 <= k < sec2.len() ==> #[trigger] sec2[k] == s[i2 + k]) by {
        assert(forall|k: int| 0 <= k < i3 - i2 ==> #[trigger] s.subrange(i2, i3)[k] == s[i2 + k]);
    }
    assert(forall|k: int| 0 <= k < sec3.len() ==> #[trigger] sec3[k] == s[i3 + k]) by {
        assert(forall|k: int| 0 <= k < s.len() - i3 ==> #[trigger] s.subrange(i3, s.len() as int)[k]
            == s[i3 + k]);
    }
    assert(s =~= config_chars(m));
}

/// Parses one unit's section at `i`: the header, then the optional
/// version and last-check lines.
fn parse_section(s: &str, i: usize, header: &str) -> (r: Option<(AppState, usize)>)
    requires
        i <= s@.len(),
    ensures
        r matches Some(p) ==> p.0.wf() && stamp_ok(p.0@.last_check) && i <= p.1 <= s@.len()
            && s@.subrange(i as int, p.1 as int) == section_chars(header@, p.0@),
        forall|sm: AppStateModel, rest: Seq<char>|
            state_wf(sm) && stamp_ok(sm.last_check) && s@.subrange(i as int, s@.len() as int)
                == section_chars(header@, sm) + rest && follows_ok(rest) ==> (r matches Some(p)
                && p.0@ == sm && p.1 == i + section_chars(header@, sm).len()),
{
    let i1 = match match_lit(s, i, header) {
        Some(j) => j,
        None => {
            proof {
                assert forall|sm: AppStateModel, rest: Seq<char>|
                    state_wf(sm) && stamp_ok(sm.last_check) && s@.subrange(
                        i as int,
                        s@.len() as int,
                    ) == section_chars(header@, sm) + rest && follows_ok(rest) implies false by {
                    lemma_section_parts(s@, i as int, header@, sm, rest);
                }
            }
            return None;
        },
    };
    let (version, i2) = match parse_version_line(s, i1) {
        Some(p) => p,
        None => {
            proof {
                assert forall|sm: AppStateModel, rest: Seq<char>|
                    state_wf(sm) && stamp_ok(sm.last_check) && s@.subrange(
                        i as int,
                        s@.len() as int,
                    ) == section_chars(header@, sm) + rest && follows_ok(rest) implies false by {
                    lemma_section_parts(s@, i as int, header@, sm, rest);
                }
            }
            return None;
        },
    };
    let (last_check, i3) = match parse_check_line(s, i2) {
        Some(p) => p,
        None => {
            proof {
                assert forall|sm: AppStateModel, rest: Seq<char>|
                    state_wf(sm) && stamp_ok(sm.last_check) && s@.subrange(
                        i as int,
                        s@.len() as int,
                    ) == section_chars(header@, sm) + rest && follows_ok(rest) implies false by {
                    lemma_section_parts(s@, i as int, header@, sm, rest);
                }
            }
            return None;
        },
    };
    let st = AppState { version, last_check };
    proof {
        assert(st@.version == opt_ver_view(version));
        assert(s@.subrange(i1 as int, i2 as int) == ver_line_chars(st@.version));
        assert(s@.subrange(i2 as int, i3 as int) == check_line_chars(st@.last_check));
        lemma_section_rebuild(
            s@,
            i as int,
            header@,
            st@,
            i1 as int,
            i2 as int,
            i3 as int,
        );
        assert forall|sm: AppStateModel, rest: Seq<char>|
            state_wf(sm) && stamp_ok(sm.last_check) && s@.subrange(i as int, s@.len() as int)
                == section_chars(header@, sm) + rest && follows_ok(rest) implies (st@ == sm && i3
            == i + section_chars(header@, sm).len()) by {
            lemma_section_parts(s@, i as int, header@, sm, rest);
            assert(st@ =~= sm);
        }
    }
    Some((st, i3))
}

/// Lays out the whole rendered configuration.
proof fn lemma_config_parts(s: Seq<char>, m: LauncherConfigModel)
    requires
        config_wf(m),
        s == config_chars(m),
    ensures
        prefix_at(s, 0, ("[global]\nsystem = \"")@),
        prefix_at(s, ("[global]\nsystem = \"")@.len() as int, m.system),
        forall|k: int| 0 <= k < m.system.len() ==> #[trigger] m.system[k] != '"',
        ("[global]\nsystem = \"")@.len() + m.system.len() + 1 < s.len(),
        s[("[global]\nsystem = \"")@.len() + m.system.len() as int] == '"',
        s[("[global]\nsystem = \"")@.len() + m.system.len() + 1 as int] == '\n',
        s.subrange(
            ("[global]\nsystem = \"")@.len() + m.system.len() + 2 as int,
            s.len() as int,
        ) == section_chars(("[launcher]\n")@, m.launcher) + (section_chars(
            ("[ri_learn]\n")@,
            m.ri_learn,
        ) + section_chars(("[ri_stack]\n")@, m.ri_stack)),
        follows_ok(
            section_chars(("[ri_learn]\n")@, m.ri_learn) + section_chars(
                ("[ri_stack]\n")@,
                m.ri_stack,
            ),
        ),
        follows_ok(section_chars(("[ri_stack]\n")@, m.ri_stack)),
        s.len() == ("[global]\nsystem = \"")@.len() + m.system.len() + 2 + section_chars(
            ("[launcher]\n")@,
            m.launcher,
        ).len() + section_chars(("[ri_learn]\n")@, m.ri_learn).len() + section_chars(
            ("[ri_stack]\n")@,
            m.ri_stack,
        ).len(),
{
    reveal_strlit("[global]\nsystem = \"");
    reveal_strlit("\"\n");
    reveal_strlit("[launcher]\n");
    reveal_strlit("[ri_learn]\n");
    reveal_strlit("[ri_stack]\n");
    let glit = ("[global]\nsystem = \"")@;
    let sec1 = section_chars(("[launcher]\n")@, m.launcher);
    let sec2 = section_chars(("[ri_learn]\n")@, m.ri_learn);
    let sec3 = section_chars(("[ri_stack]\n")@, m.ri_stack);
    assert(s =~= glit + (m.system + (("\"\n")@ + (sec1 + (sec2 + sec3)))));
    assert(s.subrange(0, s.len() as int) =~= s);
    lemma_tail_subrange(s, 0, glit, m.system + (("\"\n")@ + (sec1 + (sec2 + sec3))));
    lemma_tail_subrange(s, glit.len() as int, m.system, ("\"\n")@ + (sec1 + (sec2 + sec3)));
    lemma_tail_subrange(
        s,
        glit.len() + m.system.len() as int,
        ("\"\n")@,
        sec1 + (sec2 + sec3),
    );
    assert(s[glit.len() + m.system.len() as int] == ("\"\n")@[0]);
    assert(s[glit.len() + m.system.len() + 1 as int] == ("\"\n")@[1]);
    assert((sec2 + sec3)[0] == ("[ri_learn]\n")@[0]);
    assert(sec3[0] == ("[ri_stack]\n")@[0]);
}

/// Deserializes a configuration from its canonical text: parsing
/// inverts rendering, so a written state file reads back to the same
/// model.
#[verifier::rlimit(100)]
pub fn parse_config(s: &str) -> (r: Option<LauncherConfig>)
    ensures
        r matches Some(c) ==> c.wf() && stamps_ok(c@) && s@ == config_chars(c@),
        forall|m: LauncherConfigModel| config_wf(m) && stamps_ok(m) && s@ == config_chars(m) ==> (
        r matches Some(c) && c@ == m),
{
    proof {
        reveal_strlit("[global]\nsystem = \"");
        reveal_strlit("\n");
    }
    let len = s.unicode_len();
    let i0 = match match_lit(s, 0, "[global]\nsystem = \"") {
        Some(j) => j,
        None => {
            proof {
                assert forall|m: LauncherConfigModel|
                    config_wf(m) && stamps_ok(m) && s@ == config_chars(m) implies false by {
                    lemma_config_parts(s@, m);
                }
            }
            return None;
        },
    };
    let jq = match scan_for(s, i0, '"') {
        Some(j) => j,
        None => {
            proof {
                assert forall|m: LauncherConfigModel|
                    config_wf(m) && stamps_ok(m) && s@ == config_chars(m) implies false by {
                    lemma_config_parts(s@, m);
                    assert(s@[i0 + m.system.len()] == '"');
                }
            }
            return None;
        },
    };
    let sys = s.substring_char(i0, jq).to_owned();
    let i1 = match match_lit(s, jq + 1, "\n") {
        Some(j) => j,
        None => {
            proof {
                assert forall|m: LauncherConfigModel|
                    config_wf(m) && stamps_ok(m) && s@ == config_chars(m) implies false by {
                    lemma_config_parts(s@, m);
                    lemma_pin_quote(s@, i0 as int, m.system, jq as int);
                    assert(s@[jq + 1] == '\n');
                    assert(prefix_at(s@, jq + 1, ("\n")@));
                }
            }
            return None;
        },
    };
    let (launcher, i2) = match parse_section(s, i1, "[launcher]\n") {
        Some(p) => p,
        None => {
            proof {
                assert forall|m: LauncherConfigModel|
                    config_wf(m) && stamps_ok(m) && s@ == config_chars(m) implies false by {
                    lemma_config_parts(s@, m);
                    lemma_pin_quote(s@, i0 as int, m.system, jq as int);
                }
            }
            return None;
        },
    };
    let (ri_learn, i3) = match parse_section(s, i2, "[ri_learn]\n") {
        Some(p) => p,
        None => {
            proof {
                assert forall|m: LauncherConfigModel|
                    config_wf(m) && stamps_ok(m) && s@ == config_chars(m) implies false by {
                    config_steps(s@, m, i0 as int, jq as int, i1 as int);
                }
            }
            return None;
        },
    };
    let (ri_stack, i4) = match parse_section(s, i3, "[ri_stack]\n") {
        Some(p) => p,
        None => {
            proof {
                assert forall|m: LauncherConfigModel|
                    config_wf(m) && stamps_ok(m) && s@ == config_chars(m) implies false by {
                    config_steps(s@, m, i0 as int, jq as int, i1 as int);
                    lemma_tail_subrange(
                        s@,
                        i2 as int,
                        section_chars(("[ri_learn]\n")@, m.ri_learn),
                        section_chars(("[ri_stack]\n")@, m.ri_stack),
                    );
                    assert(section_chars(("[ri_stack]\n")@, m.ri_stack) =~= section_chars(
                        ("[ri_stack]\n")@,
                        m.ri_stack,
                    ) + Seq::<char>::empty());
                }
            }
            return None;
        },
    };
    if i4 != len {
        proof {
            assert forall|m: LauncherConfigModel|
                config_wf(m) && stamps_ok(m) && s@ == config_chars(m) implies false by {
                config_steps(s@, m, i0 as int, jq as int, i1 as int);
                lemma_tail_subrange(
                    s@,
                    i2 as int,
                    section_chars(("[ri_learn]\n")@, m.ri_learn),
                    section_chars(("[ri_stack]\n")@, m.ri_stack),
                );
                assert(section_chars(("[ri_stack]\n")@, m.ri_stack) =~= section_chars(
                    ("[ri_stack]\n")@,
                    m.ri_stack,
                ) + Seq::<char>::empty());
            }
        }
        return None;
    }
    let c = LauncherConfig { global: GlobalConfig { system: sys }, launcher, ri_learn, ri_stack };
    proof {
        assert(plain_text(sys@)) by {
            assert(forall|k: int| 0 <= k < sys@.len() ==> sys@[k] == s@[i0 + k]);
        }
        assert(c.wf());
        assert(s@ == config_chars(c@)) by {
            assert(prefix_at(s@, jq + 1, ("\n")@));
            lemma_prefix_index(s@, jq + 1, ("\n")@, 0);
            assert(c@.system =~= s@.subrange(i0 as int, jq as int));
            lemma_config_rebuild(s@, c@, jq as int, i1 as int, i2 as int, i3 as int);
        }
        assert forall|m: LauncherConfigModel|
            config_wf(m) && stamps_ok(m) && s@ == config_chars(m) implies c@ == m by {
            config_steps(s@, m, i0 as int, jq as int, i1 as int);
            lemma_tail_subrange(
                s@,
                i2 as int,
                section_chars(("[ri_learn]\n")@, m.ri_learn),
                section_chars(("[ri_stack]\n")@, m.ri_stack),
            );
            assert(section_chars(("[ri_stack]\n")@, m.ri_stack) =~= section_chars(
                ("[ri_stack]\n")@,
                m.ri_stack,
            ) + Seq::<char>::empty());
            assert(c@ =~= m);
        }
    }
    Some(c)
}

/// Replays the layout facts up to the second section under the premise,
/// pinning the parser's positions so far.
proof fn config_steps(s: Seq<char>, m: LauncherConfigModel, i0: int, jq: int, i1: int)
    requires
        config_wf(m),
        stamps_ok(m),
        s == config_chars(m),
        i0 == ("[global]\nsystem = \"")@.len(),
        0 <= jq < s.len(),
        s[jq] == '"',
        forall|k: int| i0 <= k < jq ==> s[k] != '"',
        i0 <= jq,
        i1 == jq + 2,
    ensures
        jq == i0 + m.system.len(),
        i1 == i0 + m.system.len() + 2,
        i1 <= s.len(),
        s.subrange(i1, s.len() as int) == section_chars(("[launcher]\n")@, m.launcher) + (
        section_chars(("[ri_learn]\n")@, m.ri_learn) + section_chars(
            ("[ri_stack]\n")@,
            m.ri_stack,
        )),
        s.subrange(
            i1 + section_chars(("[launcher]\n")@, m.launcher).len(),
            s.len() as int,
        ) == section_chars(("[ri_learn]\n")@, m.ri_learn) + section_chars(
            ("[ri_stack]\n")@,
            m.ri_stack,
        ),
        follows_ok(
            section_chars(("[ri_learn]\n")@, m.ri_learn) + section_chars(
                ("[ri_stack]\n")@,
                m.ri_stack,
            ),
        ),
        follows_ok(section_chars(("[ri_stack]\n")@, m.ri_stack)),
        follows_ok(Seq::<char>::empty()),
        i1 + section_chars(("[launcher]\n")@, m.launcher).len() + section_chars(
            ("[ri_learn]\n")@,
            m.ri_learn,
        ).len() + section_chars(("[ri_stack]\n")@, m.ri_stack).len() == s.len(),
{
    lemma_config_parts(s, m);
    lemma_pin_quote(s, i0, m.system, jq);
    lemma_tail_subrange(
        s,
        i1,
        section_chars(("[launcher]\n")@, m.launcher),
        section_chars(("[ri_learn]\n")@, m.ri_learn) + section_chars(
            ("[ri_stack]\n")@,
            m.ri_stack,
        ),
    );
}

} // verus!
