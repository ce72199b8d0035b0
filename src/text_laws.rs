use vstd::prelude::*;
use vstd::string::*;
use vstd::utf8::*;

use crate::json::{
    bool_text, decimal, escape_byte, escaped, hex_digit, interval_text, intervals_text,
    project_text, projects_text, string_text, submission_text,
};
use crate::model::{BackupSubmission, Project, TimeInterval};

verus! {

pub open spec fn is_digit(c: u8) -> bool {
    48 <= c <= 57
}

proof fn lemma_cancel(a: Seq<u8>, x: Seq<u8>, y: Seq<u8>)
    requires
        a + x == a + y,
    ensures
        x == y,
{
    assert(x =~= (a + x).subrange(a.len() as int, (a + x).len() as int));
    assert(y =~= (a + y).subrange(a.len() as int, (a + y).len() as int));
}

proof fn lemma_split(a: Seq<u8>, x: Seq<u8>, b: Seq<u8>, y: Seq<u8>)
    requires
        a + x == b + y,
        a.len() == b.len(),
    ensures
        a == b,
        x == y,
{
    assert(a =~= (a + x).subrange(0, a.len() as int));
    assert(b =~= (b + y).subrange(0, b.len() as int));
    lemma_cancel(a, x, y);
}

/// First bytes of the fixed pieces of the stored text.
proof fn lemma_literal_bytes()
    ensures
        "{\"id\":".spec_bytes().len() > 0,
        "{\"id\":".spec_bytes()[0] == 0x7bu8,
        ",\"start_in_milliseconds\":".spec_bytes().len() > 0,
        ",\"start_in_milliseconds\":".spec_bytes()[0] == 0x2cu8,
        ",\"stop_in_milliseconds\":".spec_bytes().len() > 0,
        ",\"stop_in_milliseconds\":".spec_bytes()[0] == 0x2cu8,
        ",\"is_registered\":".spec_bytes().len() > 0,
        ",\"is_registered\":".spec_bytes()[0] == 0x2cu8,
        ",\"name\":".spec_bytes().len() > 0,
        ",\"name\":".spec_bytes()[0] == 0x2cu8,
        "true".spec_bytes().len() > 0,
        "true".spec_bytes()[0] == 0x74u8,
        "false".spec_bytes().len() > 0,
        "false".spec_bytes()[0] == 0x66u8,
        "]}".spec_bytes() == seq![0x5du8, 0x7du8],
{
    reveal_strlit("{\"id\":");
    reveal_strlit(",\"start_in_milliseconds\":");
    reveal_strlit(",\"stop_in_milliseconds\":");
    reveal_strlit(",\"is_registered\":");
    reveal_strlit(",\"name\":");
    reveal_strlit("true");
    reveal_strlit("false");
    reveal_strlit("]}");
    assert(is_ascii("{\"id\":"));
    assert(is_ascii(",\"start_in_milliseconds\":"));
    assert(is_ascii(",\"stop_in_milliseconds\":"));
    assert(is_ascii(",\"is_registered\":"));
    assert(is_ascii(",\"name\":"));
    assert(is_ascii("true"));
    assert(is_ascii("false"));
    assert(is_ascii("]}"));
    is_ascii_spec_bytes("{\"id\":");
    is_ascii_spec_bytes(",\"start_in_milliseconds\":");
    is_ascii_spec_bytes(",\"stop_in_milliseconds\":");
    is_ascii_spec_bytes(",\"is_registered\":");
    is_ascii_spec_bytes(",\"name\":");
    is_ascii_spec_bytes("true");
    is_ascii_spec_bytes("false");
    is_ascii_spec_bytes("]}");
    assert("]}".spec_bytes() =~= seq![0x5du8, 0x7du8]);
}

proof fn lemma_decimal_digits(n: nat)
    ensures
        decimal(n).len() >= 1,
        n >= 10 ==> decimal(n).len() >= 2,
        forall|i: int| 0 <= i < decimal(n).len() ==> is_digit(#[trigger] decimal(n)[i]),
    decreases n,
{
    if n >= 10 {
        lemma_decimal_digits(n / 10);
    }
}

proof fn lemma_decimal_injective(m: nat, n: nat)
    requires
        decimal(m) == decimal(n),
    ensures
        m == n,
    decreases n,
{
    lemma_decimal_digits(m);
    lemma_decimal_digits(n);
    if m >= 10 && n >= 10 {
        assert(decimal(m).drop_last() =~= decimal(m / 10));
        assert(decimal(n).drop_last() =~= decimal(n / 10));
        lemma_decimal_injective(m / 10, n / 10);
        assert(decimal(m).last() == (48 + m % 10) as u8);
        assert(decimal(n).last() == (48 + n % 10) as u8);
        assert((48 + m % 10) as u8 == 48 + m % 10);
        assert((48 + n % 10) as u8 == 48 + n % 10);
        assert(m % 10 == n % 10);
        assert(m == 10 * (m / 10) + m % 10);
        assert(n == 10 * (n / 10) + n % 10);
    } else if m < 10 && n < 10 {
        assert(decimal(m) == seq![(48 + m) as u8]);
        assert(decimal(n) == seq![(48 + n) as u8]);
        let dm: u8 = (48 + m) as u8;
        let dn: u8 = (48 + n) as u8;
        assert(decimal(m)[0] == dm);
        assert(decimal(n)[0] == dn);
        assert((48 + m) as u8 == 48 + m);
        assert((48 + n) as u8 == 48 + n);
        assert(m == n);
    } else if m < 10 {
        assert(decimal(m).len() == 1);
    } else {
        assert(decimal(n).len() == 1);
    }
}

/// A number's digits end where the first byte that is no digit begins.
proof fn lemma_decimal_prefix(m: nat, x: Seq<u8>, n: nat, y: Seq<u8>)
    requires
        decimal(m) + x == decimal(n) + y,
        x.len() > 0 && !is_digit(x[0]),
        y.len() > 0 && !is_digit(y[0]),
    ensures
        m == n,
        x == y,
{
    lemma_decimal_digits(m);
    lemma_decimal_digits(n);
    let a = decimal(m);
    let b = decimal(n);
    if a.len() < b.len() {
        assert((a + x)[a.len() as int] == x[0]);
        assert((b + y)[a.len() as int] == b[a.len() as int]);
    } else if b.len() < a.len() {
        assert((b + y)[b.len() as int] == y[0]);
        assert((a + x)[b.len() as int] == a[b.len() as int]);
    }
    lemma_split(a, x, b, y);
    lemma_decimal_injective(m, n);
}

proof fn lemma_hex_digit_injective(m: u8, n: u8)
    requires
        m < 16,
        n < 16,
        hex_digit(m) == hex_digit(n),
    ensures
        m == n,
{
}

proof fn lemma_escape_byte_shape(b: u8)
    ensures
        escape_byte(b).len() >= 1,
        escape_byte(b)[0] != 0x22u8,
        escape_byte(b)[0] != 0x5cu8 ==> escape_byte(b) == seq![b],
{
}

/// The escape of a byte is recognised from the front, whatever follows it.
proof fn lemma_escape_byte_prefix(a: u8, x: Seq<u8>, b: u8, y: Seq<u8>)
    requires
        escape_byte(a) + x == escape_byte(b) + y,
    ensures
        a == b,
        x == y,
{
    let e = escape_byte(a);
    let f = escape_byte(b);
    lemma_escape_byte_shape(a);
    lemma_escape_byte_shape(b);
    assert((e + x)[0] == e[0]);
    assert((f + y)[0] == f[0]);
    if e[0] == 0x5cu8 {
        assert(e.len() >= 2 && f.len() >= 2);
        assert((e + x)[1] == e[1]);
        assert((f + y)[1] == f[1]);
        if e[1] == 0x75u8 {
            assert(e.len() == 6 && f.len() == 6);
            assert((e + x)[4] == e[4] && (f + y)[4] == f[4]);
            assert((e + x)[5] == e[5] && (f + y)[5] == f[5]);
            lemma_hex_digit_injective(a / 16, b / 16);
            lemma_hex_digit_injective(a % 16, b % 16);
        }
    }
    assert(e == f);
    lemma_cancel(e, x, y);
}

proof fn lemma_escaped_front(s: Seq<u8>)
    requires
        s.len() > 0,
    ensures
        escaped(s) == escape_byte(s[0]) + escaped(s.drop_first()),
    decreases s.len(),
{
    if s.len() == 1 {
        assert(s.drop_last() =~= Seq::<u8>::empty());
        assert(s.drop_first() =~= Seq::<u8>::empty());
        assert(escaped(s) =~= escape_byte(s[0]) + escaped(s.drop_first()));
    } else {
        lemma_escaped_front(s.drop_last());
        assert(s.drop_last().drop_first() =~= s.drop_first().drop_last());
        assert(escaped(s) =~= escape_byte(s[0]) + escaped(s.drop_first()));
    }
}

/// The escaped bytes of a string end at the first quote that follows them.
proof fn lemma_escaped_quote(u: Seq<u8>, x: Seq<u8>, v: Seq<u8>, y: Seq<u8>)
    requires
        escaped(u) + seq![0x22u8] + x == escaped(v) + seq![0x22u8] + y,
    ensures
        u == v,
        x == y,
    decreases u.len(),
{
    let q = seq![0x22u8];
    if u.len() == 0 && v.len() == 0 {
        assert(escaped(u) + q + x =~= q + x);
        assert(escaped(v) + q + y =~= q + y);
        lemma_cancel(q, x, y);
        assert(u =~= v);
    } else if u.len() == 0 {
        lemma_escaped_front(v);
        lemma_escape_byte_shape(v[0]);
        assert((escaped(u) + q + x)[0] == 0x22u8);
        assert((escaped(v) + q + y)[0] == escape_byte(v[0])[0]);
    } else if v.len() == 0 {
        lemma_escaped_front(u);
        lemma_escape_byte_shape(u[0]);
        assert((escaped(v) + q + y)[0] == 0x22u8);
        assert((escaped(u) + q + x)[0] == escape_byte(u[0])[0]);
    } else {
        lemma_escaped_front(u);
        lemma_escaped_front(v);
        let ru = escaped(u.drop_first()) + q + x;
        let rv = escaped(v.drop_first()) + q + y;
        assert(escaped(u) + q + x =~= escape_byte(u[0]) + ru);
        assert(escaped(v) + q + y =~= escape_byte(v[0]) + rv);
        lemma_escape_byte_prefix(u[0], ru, v[0], rv);
        lemma_escaped_quote(u.drop_first(), x, v.drop_first(), y);
        assert(u =~= seq![u[0]] + u.drop_first());
        assert(v =~= seq![v[0]] + v.drop_first());
    }
}

/// A string's text is recognised from the front, whatever follows it.
proof fn lemma_string_text_prefix(s: Seq<char>, x: Seq<u8>, t: Seq<char>, y: Seq<u8>)
    requires
        string_text(s) + x == string_text(t) + y,
    ensures
        s == t,
        x == y,
{
    let q = seq![0x22u8];
    assert(string_text(s) + x =~= q + (escaped(encode_utf8(s)) + q + x));
    assert(string_text(t) + y =~= q + (escaped(encode_utf8(t)) + q + y));
    lemma_cancel(q, escaped(encode_utf8(s)) + q + x, escaped(encode_utf8(t)) + q + y);
    lemma_escaped_quote(encode_utf8(s), x, encode_utf8(t), y);
    encode_utf8_decode_utf8(s);
    encode_utf8_decode_utf8(t);
}

proof fn lemma_bool_prefix(a: bool, x: Seq<u8>, b: bool, y: Seq<u8>)
    requires
        bool_text(a) + x == bool_text(b) + y,
    ensures
        a == b,
        x == y,
{
    lemma_literal_bytes();
    assert((bool_text(a) + x)[0] == bool_text(a)[0]);
    assert((bool_text(b) + y)[0] == bool_text(b)[0]);
    lemma_cancel(bool_text(a), x, y);
}

/// A labelled number followed by a piece that starts with a comma.
proof fn lemma_number_field(label: Seq<u8>, m: nat, x: Seq<u8>, n: nat, y: Seq<u8>)
    requires
        label + (decimal(m) + x) == label + (decimal(n) + y),
        x.len() > 0 && x[0] == 0x2cu8,
        y.len() > 0 && y[0] == 0x2cu8,
    ensures
        m == n,
        x == y,
{
    lemma_cancel(label, decimal(m) + x, decimal(n) + y);
    lemma_decimal_prefix(m, x, n, y);
}

spec fn interval_after_stop(t: TimeInterval, x: Seq<u8>) -> Seq<u8> {
    ",\"is_registered\":".spec_bytes() + (bool_text(t.is_registered) + ("}".spec_bytes() + x))
}

spec fn interval_after_start(t: TimeInterval, x: Seq<u8>) -> Seq<u8> {
    ",\"stop_in_milliseconds\":".spec_bytes() + (decimal(t.stop_in_milliseconds as nat)
        + interval_after_stop(t, x))
}

spec fn interval_after_id(t: TimeInterval, x: Seq<u8>) -> Seq<u8> {
    ",\"start_in_milliseconds\":".spec_bytes() + (decimal(t.start_in_milliseconds as nat)
        + interval_after_start(t, x))
}

#[verifier::rlimit(60)]
proof fn lemma_interval_shape(t: TimeInterval, x: Seq<u8>)
    ensures
        interval_text(t) + x == "{\"id\":".spec_bytes() + (decimal(t.id as nat)
            + interval_after_id(t, x)),
        interval_text(t).len() > 0,
        interval_text(t)[0] == 0x7bu8,
{
    reveal(interval_text);
    lemma_literal_bytes();
    assert(interval_text(t) + x =~= "{\"id\":".spec_bytes() + (decimal(t.id as nat)
        + interval_after_id(t, x)));
}

/// An interval's text is recognised from the front, whatever follows it.
proof fn lemma_interval_prefix(a: TimeInterval, x: Seq<u8>, b: TimeInterval, y: Seq<u8>)
    requires
        interval_text(a) + x == interval_text(b) + y,
    ensures
        a == b,
        x == y,
{
    lemma_literal_bytes();
    lemma_interval_shape(a, x);
    lemma_interval_shape(b, y);
    let id_label = "{\"id\":".spec_bytes();
    let start_label = ",\"start_in_milliseconds\":".spec_bytes();
    let stop_label = ",\"stop_in_milliseconds\":".spec_bytes();
    let registered_label = ",\"is_registered\":".spec_bytes();
    let close = "}".spec_bytes();
    let ra3 = interval_after_stop(a, x);
    let rb3 = interval_after_stop(b, y);
    let ra2 = interval_after_start(a, x);
    let rb2 = interval_after_start(b, y);
    let ra1 = interval_after_id(a, x);
    let rb1 = interval_after_id(b, y);
    assert(ra1[0] == start_label[0] && rb1[0] == start_label[0]);
    lemma_number_field(id_label, a.id as nat, ra1, b.id as nat, rb1);
    assert(ra2[0] == stop_label[0] && rb2[0] == stop_label[0]);
    lemma_number_field(
        start_label,
        a.start_in_milliseconds as nat,
        ra2,
        b.start_in_milliseconds as nat,
        rb2,
    );
    assert(ra3[0] == registered_label[0] && rb3[0] == registered_label[0]);
    lemma_number_field(stop_label, a.stop_in_milliseconds as nat, ra3, b.stop_in_milliseconds as nat, rb3);
    lemma_cancel(registered_label, bool_text(a.is_registered) + (close + x), bool_text(b.is_registered) + (close + y));
    lemma_bool_prefix(a.is_registered, close + x, b.is_registered, close + y);
    lemma_cancel(close, x, y);
}

proof fn lemma_intervals_front(ts: Seq<TimeInterval>)
    requires
        ts.len() >= 2,
    ensures
        intervals_text(ts) == interval_text(ts[0]) + (seq![0x2cu8] + intervals_text(ts.drop_first())),
    decreases ts.len(),
{
    let c = seq![0x2cu8];
    let dl = ts.drop_last();
    let df = ts.drop_first();
    assert(intervals_text(ts) == intervals_text(dl) + c + interval_text(ts.last()));
    if ts.len() == 2 {
        assert(intervals_text(dl) == interval_text(dl[0]));
        assert(intervals_text(df) == interval_text(df[0]));
        assert(dl[0] == ts[0] && df[0] == ts.last());
    } else {
        lemma_intervals_front(dl);
        assert(dl.drop_first() =~= df.drop_last());
        assert(intervals_text(df) == intervals_text(df.drop_last()) + c + interval_text(df.last()));
        assert(df.last() == ts.last() && dl[0] == ts[0]);
    }
    assert(intervals_text(ts) =~= interval_text(ts[0]) + (c + intervals_text(df)));
}

/// A list of intervals is recognised from the front up to its closing bracket.
proof fn lemma_intervals_prefix(
    ts: Seq<TimeInterval>,
    x: Seq<u8>,
    us: Seq<TimeInterval>,
    y: Seq<u8>,
)
    requires
        intervals_text(ts) + (seq![0x5du8] + x) == intervals_text(us) + (seq![0x5du8] + y),
    ensures
        ts == us,
        x == y,
    decreases ts.len(),
{
    let c = seq![0x2cu8];
    let e = seq![0x5du8];
    if ts.len() == 0 && us.len() == 0 {
        assert(intervals_text(ts) + (e + x) =~= e + x);
        assert(intervals_text(us) + (e + y) =~= e + y);
        lemma_cancel(e, x, y);
        assert(ts =~= us);
    } else if ts.len() == 0 || us.len() == 0 {
        let w = if ts.len() == 0 {
            us
        } else {
            ts
        };
        let z = if ts.len() == 0 {
            y
        } else {
            x
        };
        let tail = if w.len() == 1 {
            e + z
        } else {
            c + (intervals_text(w.drop_first()) + (e + z))
        };
        if w.len() >= 2 {
            lemma_intervals_front(w);
        } else {
            assert(intervals_text(w) == interval_text(w[0]));
        }
        assert(intervals_text(w) + (e + z) =~= interval_text(w[0]) + tail);
        lemma_interval_shape(w[0], tail);
        assert((interval_text(w[0]) + tail)[0] == 0x7bu8);
        assert((e + x)[0] == 0x5du8);
        assert((e + y)[0] == 0x5du8);
    } else {
        let rt = if ts.len() == 1 {
            e + x
        } else {
            c + (intervals_text(ts.drop_first()) + (e + x))
        };
        let ru = if us.len() == 1 {
            e + y
        } else {
            c + (intervals_text(us.drop_first()) + (e + y))
        };
        if ts.len() >= 2 {
            lemma_intervals_front(ts);
        } else {
            assert(intervals_text(ts) == interval_text(ts[0]));
        }
        if us.len() >= 2 {
            lemma_intervals_front(us);
        } else {
            assert(intervals_text(us) == interval_text(us[0]));
        }
        assert(intervals_text(ts) + (e + x) =~= interval_text(ts[0]) + rt);
        assert(intervals_text(us) + (e + y) =~= interval_text(us[0]) + ru);
        lemma_interval_prefix(ts[0], rt, us[0], ru);
        assert(rt[0] == ru[0]);
        if ts.len() == 1 && us.len() == 1 {
            lemma_cancel(e, x, y);
            assert(ts =~= us);
        } else if ts.len() >= 2 && us.len() >= 2 {
            lemma_cancel(
                c,
                intervals_text(ts.drop_first()) + (e + x),
                intervals_text(us.drop_first()) + (e + y),
            );
            lemma_intervals_prefix(ts.drop_first(), x, us.drop_first(), y);
            assert(ts =~= seq![ts[0]] + ts.drop_first());
            assert(us =~= seq![us[0]] + us.drop_first());
        }
    }
}

/// Two projects with the same id, the same name and the same intervals in
/// the same order.
pub open spec fn same_project(p: Project, q: Project) -> bool {
    p.id == q.id && p.name@ == q.name@ && p.time_intervals@ == q.time_intervals@
}

/// Two submissions whose projects agree one for one, in order.
pub open spec fn same_submission(a: BackupSubmission, b: BackupSubmission) -> bool {
    a.projects@.len() == b.projects@.len() && forall|i: int|
        0 <= i < a.projects@.len() ==> same_project(#[trigger] a.projects@[i], b.projects@[i])
}

spec fn project_after_name(p: Project, x: Seq<u8>) -> Seq<u8> {
    ",\"time_intervals\":[".spec_bytes() + (intervals_text(p.time_intervals@) + ("]}".spec_bytes()
        + x))
}

spec fn project_after_id(p: Project, x: Seq<u8>) -> Seq<u8> {
    ",\"name\":".spec_bytes() + (string_text(p.name@) + project_after_name(p, x))
}

#[verifier::rlimit(60)]
proof fn lemma_project_shape(p: Project, x: Seq<u8>)
    ensures
        project_text(p) + x == "{\"id\":".spec_bytes() + (decimal(p.id as nat) + project_after_id(
            p,
            x,
        )),
        project_text(p).len() > 0,
        project_text(p)[0] == 0x7bu8,
{
    reveal(project_text);
    lemma_literal_bytes();
    assert(project_text(p) + x =~= "{\"id\":".spec_bytes() + (decimal(p.id as nat)
        + project_after_id(p, x)));
}

/// A project's text is recognised from the front, whatever follows it.
proof fn lemma_project_prefix(p: Project, x: Seq<u8>, q: Project, y: Seq<u8>)
    requires
        project_text(p) + x == project_text(q) + y,
    ensures
        same_project(p, q),
        x == y,
{
    lemma_literal_bytes();
    lemma_project_shape(p, x);
    lemma_project_shape(q, y);
    let q2 = ",\"name\":".spec_bytes();
    let q3 = ",\"time_intervals\":[".spec_bytes();
    let e = seq![0x5du8];
    let z = seq![0x7du8];
    let ra = project_after_id(p, x);
    let rb = project_after_id(q, y);
    assert(ra[0] == q2[0] && rb[0] == q2[0]);
    lemma_number_field("{\"id\":".spec_bytes(), p.id as nat, ra, q.id as nat, rb);
    lemma_cancel(
        q2,
        string_text(p.name@) + project_after_name(p, x),
        string_text(q.name@) + project_after_name(q, y),
    );
    lemma_string_text_prefix(p.name@, project_after_name(p, x), q.name@, project_after_name(q, y));
    assert("]}".spec_bytes() + x =~= e + (z + x));
    assert("]}".spec_bytes() + y =~= e + (z + y));
    lemma_cancel(
        q3,
        intervals_text(p.time_intervals@) + (e + (z + x)),
        intervals_text(q.time_intervals@) + (e + (z + y)),
    );
    lemma_intervals_prefix(p.time_intervals@, z + x, q.time_intervals@, z + y);
    lemma_cancel(z, x, y);
}

proof fn lemma_projects_front(ps: Seq<Project>)
    requires
        ps.len() >= 2,
    ensures
        projects_text(ps) == project_text(ps[0]) + (seq![0x2cu8] + projects_text(ps.drop_first())),
    decreases ps.len(),
{
    let c = seq![0x2cu8];
    let dl = ps.drop_last();
    let df = ps.drop_first();
    assert(projects_text(ps) == projects_text(dl) + c + project_text(ps.last()));
    if ps.len() == 2 {
        assert(projects_text(dl) == project_text(dl[0]));
        assert(projects_text(df) == project_text(df[0]));
        assert(dl[0] == ps[0] && df[0] == ps.last());
    } else {
        lemma_projects_front(dl);
        assert(dl.drop_first() =~= df.drop_last());
        assert(projects_text(df) == projects_text(df.drop_last()) + c + project_text(df.last()));
        assert(df.last() == ps.last() && dl[0] == ps[0]);
    }
    assert(projects_text(ps) =~= project_text(ps[0]) + (c + projects_text(df)));
}

/// A list of projects is recognised from the front up to its closing bracket.
proof fn lemma_projects_prefix(ps: Seq<Project>, x: Seq<u8>, qs: Seq<Project>, y: Seq<u8>)
    requires
        projects_text(ps) + (seq![0x5du8] + x) == projects_text(qs) + (seq![0x5du8] + y),
    ensures
        ps.len() == qs.len(),
        forall|i: int| 0 <= i < ps.len() ==> same_project(#[trigger] ps[i], qs[i]),
        x == y,
    decreases ps.len(),
{
    let c = seq![0x2cu8];
    let e = seq![0x5du8];
    if ps.len() == 0 && qs.len() == 0 {
        assert(projects_text(ps) + (e + x) =~= e + x);
        assert(projects_text(qs) + (e + y) =~= e + y);
        lemma_cancel(e, x, y);
    } else if ps.len() == 0 || qs.len() == 0 {
        let w = if ps.len() == 0 {
            qs
        } else {
            ps
        };
        let z = if ps.len() == 0 {
            y
        } else {
            x
        };
        let tail = if w.len() == 1 {
            e + z
        } else {
            c + (projects_text(w.drop_first()) + (e + z))
        };
        if w.len() >= 2 {
            lemma_projects_front(w);
        } else {
            assert(projects_text(w) == project_text(w[0]));
        }
        assert(projects_text(w) + (e + z) =~= project_text(w[0]) + tail);
        lemma_project_shape(w[0], tail);
        assert((project_text(w[0]) + tail)[0] == 0x7bu8);
        assert((e + x)[0] == 0x5du8);
        assert((e + y)[0] == 0x5du8);
    } else {
        let rp = if ps.len() == 1 {
            e + x
        } else {
            c + (projects_text(ps.drop_first()) + (e + x))
        };
        let rq = if qs.len() == 1 {
            e + y
        } else {
            c + (projects_text(qs.drop_first()) + (e + y))
        };
        if ps.len() >= 2 {
            lemma_projects_front(ps);
        } else {
            assert(projects_text(ps) == project_text(ps[0]));
        }
        if qs.len() >= 2 {
            lemma_projects_front(qs);
        } else {
            assert(projects_text(qs) == project_text(qs[0]));
        }
        assert(projects_text(ps) + (e + x) =~= project_text(ps[0]) + rp);
        assert(projects_text(qs) + (e + y) =~= project_text(qs[0]) + rq);
        lemma_project_prefix(ps[0], rp, qs[0], rq);
        assert(rp[0] == rq[0]);
        if ps.len() == 1 && qs.len() == 1 {
            lemma_cancel(e, x, y);
        } else if ps.len() >= 2 && qs.len() >= 2 {
            lemma_cancel(
                c,
                projects_text(ps.drop_first()) + (e + x),
                projects_text(qs.drop_first()) + (e + y),
            );
            lemma_projects_prefix(ps.drop_first(), x, qs.drop_first(), y);
            assert forall|i: int| 0 <= i < ps.len() implies same_project(
                #[trigger] ps[i],
                qs[i],
            ) by {
                if i > 0 {
                    assert(ps[i] == ps.drop_first()[i - 1]);
                    assert(qs[i] == qs.drop_first()[i - 1]);
                }
            }
        }
    }
}

/// The stored text determines the submission: two submissions stored as the
/// same text have the same projects in the same order, each with the same id,
/// the same name and the same intervals in the same order.
pub proof fn lemma_stored_text_determines_submission(a: BackupSubmission, b: BackupSubmission)
    requires
        submission_text(a) == submission_text(b),
    ensures
        same_submission(a, b),
{
    lemma_literal_bytes();
    let s1 = "{\"projects\":[".spec_bytes();
    let e = seq![0x5du8];
    let z = seq![0x7du8];
    assert(submission_text(a) =~= s1 + (projects_text(a.projects@) + (e + z)));
    assert(submission_text(b) =~= s1 + (projects_text(b.projects@) + (e + z)));
    lemma_cancel(s1, projects_text(a.projects@) + (e + z), projects_text(b.projects@) + (e + z));
    lemma_projects_prefix(a.projects@, z, b.projects@, z);
}

} // verus!
