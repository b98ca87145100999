//! The port list as JSON (`list --json`): an array of objects with the
//! fields of `PortInfo`, indented by two spaces per level.
use vstd::prelude::*;
use crate::number::{decimal, push_decimal};
use crate::port::PortInfo;
use crate::text::{chars_of, push_char, push_str};

verus! {

/// The lower-case hexadecimal digit for `d < 16`.
pub open spec fn hex_digit(d: nat) -> char {
    if d < 10 {
        ('0' as int + d) as char
    } else {
        ('a' as int + d - 10) as char
    }
}

/// How a character is written inside a JSON string: `"` and `\` behind a
/// backslash; backspace, form feed, newline, carriage return and tab as
/// `\b`, `\f`, `\n`, `\r`, `\t`; the other control characters below U+0020
/// as `\u00XX`; every other character as itself.
pub open spec fn json_escape_char(c: char) -> Seq<char> {
    if c == '"' {
        seq!['\\', '"']
    } else if c == '\\' {
        seq!['\\', '\\']
    } else if c == '\u{8}' {
        seq!['\\', 'b']
    } else if c == '\u{c}' {
        seq!['\\', 'f']
    } else if c == '\n' {
        seq!['\\', 'n']
    } else if c == '\r' {
        seq!['\\', 'r']
    } else if c == '\t' {
        seq!['\\', 't']
    } else if (c as int) < 0x20 {
        seq!['\\', 'u', '0', '0', hex_digit((c as int / 16) as nat), hex_digit((c as int % 16) as nat)]
    } else {
        seq![c]
    }
}

/// The characters of `s` as written inside a JSON string.
pub open spec fn json_escape(s: Seq<char>) -> Seq<char> {
    s.flat_map(|c: char| json_escape_char(c))
}

/// `s` as a JSON string.
pub open spec fn json_string(s: Seq<char>) -> Seq<char> {
    seq!['"'] + json_escape(s) + seq!['"']
}

/// A port entry as a JSON object at the second level of indentation.
pub open spec fn port_object(p: PortInfo) -> Seq<char> {
    "  {\n    \"port\": "@ + decimal(p.port as nat) + ",\n    \"protocol\": "@ + json_string(
        p.protocol@,
    ) + ",\n    \"pid\": "@ + decimal(p.pid as nat) + ",\n    \"process_name\": "@ + json_string(
        p.process_name@,
    ) + ",\n    \"command\": "@ + json_string(p.command@) + "\n  }"@
}

/// The objects of the entries of `ps`, separated by a comma and a newline.
pub open spec fn port_objects(ps: Seq<PortInfo>) -> Seq<char>
    decreases ps.len(),
{
    if ps.len() == 0 {
        Seq::empty()
    } else if ps.len() == 1 {
        port_object(ps[0])
    } else {
        port_objects(ps.drop_last()) + ",\n"@ + port_object(ps.last())
    }
}

/// The entries of `ps` as a JSON array: `[]` when there are none.
pub open spec fn ports_json_text(ps: Seq<PortInfo>) -> Seq<char> {
    if ps.len() == 0 {
        "[]"@
    } else {
        "[\n"@ + port_objects(ps) + "\n]"@
    }
}

/// The objects of two non-empty lists together are the objects of the first,
/// a comma and a newline, and the objects of the second: consecutive objects
/// are always separated by `,\n`.
pub proof fn lemma_port_objects_concat(a: Seq<PortInfo>, b: Seq<PortInfo>)
    requires
        a.len() > 0,
        b.len() > 0,
    ensures
        port_objects(a + b) == port_objects(a) + ",\n"@ + port_objects(b),
    decreases b.len(),
{
    let ab = a + b;
    if b.len() == 1 {
        assert(ab.drop_last() =~= a);
        assert(ab.last() == b[0]);
    } else {
        let b2 = b.drop_last();
        assert(ab.drop_last() =~= a + b2);
        assert(ab.last() == b.last());
        lemma_port_objects_concat(a, b2);
        assert(port_objects(a) + ",\n"@ + port_objects(b2) + ",\n"@ + port_object(b.last()) =~= port_objects(
            a,
        ) + ",\n"@ + (port_objects(b2) + ",\n"@ + port_object(b.last())));
    }
}

/// A single entry is written as its object alone.
pub proof fn lemma_port_objects_single(p: PortInfo)
    ensures
        port_objects(seq![p]) == port_object(p),
{
}

/// The JSON text of a non-empty list is `[`, a newline, the first object,
/// then for each later entry a comma, a newline and its object, then a
/// newline and `]`.
pub proof fn lemma_ports_json_layout(ps: Seq<PortInfo>, k: int)
    requires
        0 < k < ps.len(),
    ensures
        ports_json_text(ps) == "[\n"@ + port_objects(ps.take(k)) + ",\n"@ + port_objects(
            ps.skip(k),
        ) + "\n]"@,
{
    assert(ps =~= ps.take(k) + ps.skip(k));
    lemma_port_objects_concat(ps.take(k), ps.skip(k));
}

fn hex_char(d: u32) -> (c: char)
    requires
        d < 16,
    ensures
        c == hex_digit(d as nat),
{
    let digits: [char; 16] = [
        '0',
        '1',
        '2',
        '3',
        '4',
        '5',
        '6',
        '7',
        '8',
        '9',
        'a',
        'b',
        'c',
        'd',
        'e',
        'f',
    ];
    let c = digits[d as usize];
    assert(c == hex_digit(d as nat)) by {
        assert(digits@[d as int] == c);
    }
    c
}

/// Appends `c` as written inside a JSON string.
fn push_escaped_char(s: &mut String, c: char)
    ensures
        final(s)@ == old(s)@ + json_escape_char(c),
{
    let ghost start = s@;
    if c == '"' {
        push_char(s, '\\');
        push_char(s, '"');
    } else if c == '\\' {
        push_char(s, '\\');
        push_char(s, '\\');
    } else if c == '\u{8}' {
        push_char(s, '\\');
        push_char(s, 'b');
    } else if c == '\u{c}' {
        push_char(s, '\\');
        push_char(s, 'f');
    } else if c == '\n' {
        push_char(s, '\\');
        push_char(s, 'n');
    } else if c == '\r' {
        push_char(s, '\\');
        push_char(s, 'r');
    } else if c == '\t' {
        push_char(s, '\\');
        push_char(s, 't');
    } else if (c as u32) < 0x20 {
        let code = c as u32;
        push_char(s, '\\');
        push_char(s, 'u');
        push_char(s, '0');
        push_char(s, '0');
        push_char(s, hex_char(code / 16));
        push_char(s, hex_char(code % 16));
    } else {
        push_char(s, c);
    }
    assert(s@ =~= start + json_escape_char(c));
}

/// Appends `t` as a JSON string.
pub fn push_json_string(s: &mut String, t: &str)
    ensures
        final(s)@ == old(s)@ + json_string(t@),
{
    let v = chars_of(t);
    let n = v.len();
    let ghost start = s@;
    let ghost f = |c: char| json_escape_char(c);
    push_char(s, '"');
    assert(v@.take(0) =~= Seq::<char>::empty());
    assert(v@.take(0).flat_map(f) =~= Seq::<char>::empty()) by {
        reveal_with_fuel(Seq::flat_map, 1);
    }
    for i in 0..n
        invariant
            n == v@.len(),
            v@ == t@,
            f == (|c: char| json_escape_char(c)),
            s@ == start + seq!['"'] + v@.take(i as int).flat_map(f),
    {
        let ghost before = s@;
        push_escaped_char(s, v[i]);
        proof {
            v@.take(i as int).lemma_flat_map_push(f, v@[i as int]);
            assert(v@.take(i + 1) =~= v@.take(i as int).push(v@[i as int]));
            assert(s@ =~= start + seq!['"'] + v@.take(i + 1).flat_map(f));
        }
    }
    push_char(s, '"');
    assert(v@.take(n as int) =~= v@);
    assert(s@ =~= start + json_string(t@));
}

/// Appends the JSON object of `p`.
fn push_port_object(s: &mut String, p: &PortInfo)
    ensures
        final(s)@ == old(s)@ + port_object(*p),
{
    let ghost start = s@;
    push_str(s, "  {\n    \"port\": ");
    push_decimal(s, p.port as u64);
    push_str(s, ",\n    \"protocol\": ");
    push_json_string(s, p.protocol.as_str());
    push_str(s, ",\n    \"pid\": ");
    push_decimal(s, p.pid as u64);
    push_str(s, ",\n    \"process_name\": ");
    push_json_string(s, p.process_name.as_str());
    push_str(s, ",\n    \"command\": ");
    push_json_string(s, p.command.as_str());
    push_str(s, "\n  }");
    assert(s@ =~= start + port_object(*p));
}

/// The port entries as a JSON array (as `serde_json::to_string_pretty`
/// writes a list of them).
pub fn ports_json(ports: &Vec<PortInfo>) -> (s: String)
    ensures
        s@ == ports_json_text(ports@),
{
    let n = ports.len();
    if n == 0 {
        return crate::text::to_string("[]");
    }
    let mut s = crate::text::to_string("[\n");
    let ghost start = s@;
    push_port_object(&mut s, &ports[0]);
    assert(ports@.take(1).drop_last() =~= Seq::<PortInfo>::empty());
    assert(port_objects(ports@.take(1)) == port_object(ports@[0]));
    for i in 1..n
        invariant
            n == ports@.len(),
            n > 0,
            s@ == start + port_objects(ports@.take(i as int)),
    {
        push_str(&mut s, ",\n");
        push_port_object(&mut s, &ports[i]);
        proof {
            let t = ports@.take(i + 1);
            assert(t.drop_last() =~= ports@.take(i as int));
            assert(t.last() == ports@[i as int]);
            assert(port_objects(t) == port_objects(ports@.take(i as int)) + ",\n"@ + port_object(
                ports@[i as int],
            ));
            assert(s@ =~= start + port_objects(t));
        }
    }
    push_str(&mut s, "\n]");
    assert(ports@.take(n as int) =~= ports@);
    assert(s@ =~= ports_json_text(ports@));
    s
}

} // verus!
