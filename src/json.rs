use vstd::prelude::*;
use vstd::string::*;
use vstd::utf8::*;

use crate::model::{BackupSubmission, Project, TimeInterval};

verus! {

/// The lower-case hexadecimal digit for a value below sixteen.
pub open spec fn hex_digit(n: u8) -> u8 {
    if n < 10 {
        (n + 48) as u8
    } else {
        (n + 87) as u8
    }
}

/// How one byte of a string's UTF-8 encoding appears between the quotes.
pub open spec fn escape_byte(b: u8) -> Seq<u8> {
    if b == 0x22 {
        seq![0x5cu8, 0x22u8]
    } else if b == 0x5c {
        seq![0x5cu8, 0x5cu8]
    } else if b == 0x08 {
        seq![0x5cu8, 0x62u8]
    } else if b == 0x09 {
        seq![0x5cu8, 0x74u8]
    } else if b == 0x0a {
        seq![0x5cu8, 0x6eu8]
    } else if b == 0x0c {
        seq![0x5cu8, 0x66u8]
    } else if b == 0x0d {
        seq![0x5cu8, 0x72u8]
    } else if b < 0x20 {
        seq![0x5cu8, 0x75u8, 0x30u8, 0x30u8, hex_digit(b / 16), hex_digit(b % 16)]
    } else {
        seq![b]
    }
}

/// The escapes of the bytes of `s`, one after another.
pub open spec fn escaped(s: Seq<u8>) -> Seq<u8>
    decreases s.len(),
{
    if s.len() == 0 {
        seq![]
    } else {
        escaped(s.drop_last()) + escape_byte(s.last())
    }
}

/// A JSON string literal holding the characters `s`.
pub open spec fn string_text(s: Seq<char>) -> Seq<u8> {
    seq![0x22u8] + escaped(encode_utf8(s)) + seq![0x22u8]
}

/// The decimal digits of `n`, most significant first, without leading zeros.
pub open spec fn decimal(n: nat) -> Seq<u8>
    decreases n,
{
    if n < 10 {
        seq![(48 + n) as u8]
    } else {
        decimal(n / 10) + seq![(48 + n % 10) as u8]
    }
}

/// `true` or `false`.
pub open spec fn bool_text(b: bool) -> Seq<u8> {
    if b {
        "true".spec_bytes()
    } else {
        "false".spec_bytes()
    }
}

/// The JSON object of one interval, its fields in declaration order.
#[verifier::opaque]
pub open spec fn interval_text(t: TimeInterval) -> Seq<u8> {
    "{\"id\":".spec_bytes() + decimal(t.id as nat) + ",\"start_in_milliseconds\":".spec_bytes()
        + decimal(t.start_in_milliseconds as nat) + ",\"stop_in_milliseconds\":".spec_bytes()
        + decimal(t.stop_in_milliseconds as nat) + ",\"is_registered\":".spec_bytes()
        + bool_text(t.is_registered) + "}".spec_bytes()
}

/// The comma-separated texts of the intervals, in order.
pub open spec fn intervals_text(ts: Seq<TimeInterval>) -> Seq<u8>
    decreases ts.len(),
{
    if ts.len() == 0 {
        seq![]
    } else if ts.len() == 1 {
        interval_text(ts[0])
    } else {
        intervals_text(ts.drop_last()) + seq![0x2cu8] + interval_text(ts.last())
    }
}

/// The JSON object of one project, its fields in declaration order.
#[verifier::opaque]
pub open spec fn project_text(p: Project) -> Seq<u8> {
    "{\"id\":".spec_bytes() + decimal(p.id as nat) + ",\"name\":".spec_bytes() + string_text(
        p.name@,
    ) + ",\"time_intervals\":[".spec_bytes() + intervals_text(p.time_intervals@) + "]}".spec_bytes()
}

/// The comma-separated texts of the projects, in order.
pub open spec fn projects_text(ps: Seq<Project>) -> Seq<u8>
    decreases ps.len(),
{
    if ps.len() == 0 {
        seq![]
    } else if ps.len() == 1 {
        project_text(ps[0])
    } else {
        projects_text(ps.drop_last()) + seq![0x2cu8] + project_text(ps.last())
    }
}

/// The compact JSON text of a submission: field names as received, no
/// whitespace, projects and intervals in their given order.
pub open spec fn submission_text(s: BackupSubmission) -> Seq<u8> {
    "{\"projects\":[".spec_bytes() + projects_text(s.projects@) + "]}".spec_bytes()
}

fn push_text(out: &mut Vec<u8>, s: &str)
    ensures
        final(out)@ == old(out)@ + s.spec_bytes(),
{
    let b = s.as_bytes();
    out.extend_from_slice(b);
    assert(out@ =~= old(out)@ + s.spec_bytes());
}

fn push_decimal(out: &mut Vec<u8>, n: usize)
    ensures
        final(out)@ == old(out)@ + decimal(n as nat),
    decreases n,
{
    if n >= 10 {
        push_decimal(out, n / 10);
    }
    let d: u8 = (n % 10) as u8;
    out.push(48 + d);
    assert(out@ =~= old(out)@ + decimal(n as nat));
}

fn hex(n: u8) -> (r: u8)
    requires
        n < 16,
    ensures
        r == hex_digit(n),
{
    if n < 10 {
        n + 48
    } else {
        n + 87
    }
}

fn push_escaped_byte(out: &mut Vec<u8>, b: u8)
    ensures
        final(out)@ == old(out)@ + escape_byte(b),
{
    if b == 0x22 || b == 0x5c {
        out.push(0x5c);
        out.push(b);
    } else if b == 0x08 {
        out.push(0x5c);
        out.push(0x62);
    } else if b == 0x09 {
        out.push(0x5c);
        out.push(0x74);
    } else if b == 0x0a {
        out.push(0x5c);
        out.push(0x6e);
    } else if b == 0x0c {
        out.push(0x5c);
        out.push(0x66);
    } else if b == 0x0d {
        out.push(0x5c);
        out.push(0x72);
    } else if b < 0x20 {
        out.push(0x5c);
        out.push(0x75);
        out.push(0x30);
        out.push(0x30);
        out.push(hex(b / 16));
        out.push(hex(b % 16));
    } else {
        out.push(b);
    }
    assert(out@ =~= old(out)@ + escape_byte(b));
}

fn push_string(out: &mut Vec<u8>, s: &String)
    ensures
        final(out)@ == old(out)@ + string_text(s@),
{
    let ghost start = out@;
    let bytes = s.as_str().as_bytes();
    assert(bytes@ == encode_utf8(s@));
    out.push(0x22);
    let mut i: usize = 0;
    while i < bytes.len()
        invariant
            i <= bytes@.len(),
            bytes@ == encode_utf8(s@),
            out@ == start + seq![0x22u8] + escaped(bytes@.take(i as int)),
        decreases bytes@.len() - i,
    {
        let ghost before = out@;
        push_escaped_byte(out, bytes[i]);
        assert(bytes@.take(i + 1).drop_last() =~= bytes@.take(i as int));
        i = i + 1;
        assert(out@ =~= start + seq![0x22u8] + escaped(bytes@.take(i as int)));
    }
    assert(bytes@.take(i as int) =~= bytes@);
    out.push(0x22);
    assert(out@ =~= start + string_text(s@));
}

#[verifier::rlimit(40)]
fn push_interval(out: &mut Vec<u8>, t: &TimeInterval)
    ensures
        final(out)@ == old(out)@ + interval_text(*t),
{
    push_text(out, "{\"id\":");
    push_decimal(out, t.id);
    push_text(out, ",\"start_in_milliseconds\":");
    push_decimal(out, t.start_in_milliseconds);
    push_text(out, ",\"stop_in_milliseconds\":");
    push_decimal(out, t.stop_in_milliseconds);
    push_text(out, ",\"is_registered\":");
    if t.is_registered {
        push_text(out, "true");
    } else {
        push_text(out, "false");
    }
    push_text(out, "}");
    reveal(interval_text);
    assert(out@ =~= old(out)@ + interval_text(*t));
}

fn push_intervals(out: &mut Vec<u8>, ts: &Vec<TimeInterval>)
    ensures
        final(out)@ == old(out)@ + intervals_text(ts@),
{
    let ghost start = out@;
    let mut i: usize = 0;
    assert(intervals_text(ts@.take(0)) =~= Seq::<u8>::empty());
    while i < ts.len()
        invariant
            i <= ts@.len(),
            out@ == start + intervals_text(ts@.take(i as int)),
        decreases ts@.len() - i,
    {
        if i > 0 {
            out.push(0x2c);
        }
        push_interval(out, &ts[i]);
        assert(ts@.take(i + 1).drop_last() =~= ts@.take(i as int));
        i = i + 1;
        assert(out@ =~= start + intervals_text(ts@.take(i as int)));
    }
    assert(ts@.take(i as int) =~= ts@);
}

#[verifier::rlimit(40)]
fn push_project(out: &mut Vec<u8>, p: &Project)
    ensures
        final(out)@ == old(out)@ + project_text(*p),
{
    push_text(out, "{\"id\":");
    push_decimal(out, p.id);
    push_text(out, ",\"name\":");
    push_string(out, &p.name);
    push_text(out, ",\"time_intervals\":[");
    push_intervals(out, &p.time_intervals);
    push_text(out, "]}");
    reveal(project_text);
    assert(out@ =~= old(out)@ + project_text(*p));
}

/// Serializes a submission to the text that is stored for it.
pub fn encode_submission(s: &BackupSubmission) -> (r: Vec<u8>)
    ensures
        r@ == submission_text(*s),
{
    let mut out: Vec<u8> = Vec::new();
    push_text(&mut out, "{\"projects\":[");
    let ghost start = out@;
    let mut i: usize = 0;
    assert(projects_text(s.projects@.take(0)) =~= Seq::<u8>::empty());
    while i < s.projects.len()
        invariant
            i <= s.projects@.len(),
            out@ == start + projects_text(s.projects@.take(i as int)),
        decreases s.projects@.len() - i,
    {
        if i > 0 {
            out.push(0x2c);
        }
        push_project(&mut out, &s.projects[i]);
        assert(s.projects@.take(i + 1).drop_last() =~= s.projects@.take(i as int));
        i = i + 1;
        assert(out@ =~= start + projects_text(s.projects@.take(i as int)));
    }
    assert(s.projects@.take(i as int) =~= s.projects@);
    push_text(&mut out, "]}");
    assert(out@ =~= submission_text(*s));
    out
}

} // verus!
