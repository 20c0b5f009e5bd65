//! Target resolution: subnet templates such as `10.65.3.x`, IPv4 addresses,
//! and the address of a (team, VM) pair.
use crate::text::{
    split_fields, split_on, decimal_chars, dec, is_digit, lemma_dec_digits, lemma_dec_injective, push_decimal,
    same_chars,
};
use vstd::prelude::*;

verus! {

/// The character that stands for the host octet in a subnet template.
pub const PLACEHOLDER: char = 'x';

/// Four texts joined by dots.
pub open spec fn dotted(a: Seq<char>, b: Seq<char>, c: Seq<char>, d: Seq<char>) -> Seq<char> {
    a + seq!['.'] + b + seq!['.'] + c + seq!['.'] + d
}

/// `s` with every `from` character replaced by the text `to`.
pub open spec fn replace_char(s: Seq<char>, from: char, to: Seq<char>) -> Seq<char>
    decreases s.len(),
{
    if s.len() == 0 {
        s
    } else {
        replace_char(s.drop_last(), from, to) + if s.last() == from {
            to
        } else {
            seq![s.last()]
        }
    }
}

/// An IPv4 address.
#[derive(Clone, Copy, Debug, PartialEq, Eq, Structural)]
pub struct Ipv4Address {
    pub a: u8,
    pub b: u8,
    pub c: u8,
    pub d: u8,
}

/// The dotted-decimal text of an address.
pub open spec fn ipv4_text(ip: Ipv4Address) -> Seq<char> {
    dotted(dec(ip.a as nat), dec(ip.b as nat), dec(ip.c as nat), dec(ip.d as nat))
}

/// Whether `s` is an IPv4 address in dotted-decimal form: four octets
/// written in decimal without leading zeros, joined by dots.
pub open spec fn is_ipv4_text(s: Seq<char>) -> bool {
    exists|ip: Ipv4Address| s == ipv4_text(ip)
}

impl Ipv4Address {
    /// The dotted-decimal text of the address.
    pub fn to_text(&self) -> (r: String)
        ensures
            r@ == ipv4_text(*self),
    {
        let mut out = String::new();
        push_decimal(&mut out, self.a as u64);
        out.append(".");
        push_decimal(&mut out, self.b as u64);
        out.append(".");
        push_decimal(&mut out, self.c as u64);
        out.append(".");
        push_decimal(&mut out, self.d as u64);
        proof {
            reveal_strlit(".");
        }
        assert(out@ =~= ipv4_text(*self));
        out
    }
}

/// A parsed subnet template: four fields, each an octet or the placeholder
/// (`None`).
#[derive(Clone, Debug)]
pub struct SubnetTemplate {
    pub fields: Vec<Option<u8>>,
}

/// The text of one template field.
pub open spec fn field_text(f: Option<u8>) -> Seq<char> {
    match f {
        Some(o) => dec(o as nat),
        None => seq![PLACEHOLDER],
    }
}

/// How many fields are the placeholder.
pub open spec fn placeholder_count(fs: Seq<Option<u8>>) -> nat
    decreases fs.len(),
{
    if fs.len() == 0 {
        0
    } else {
        placeholder_count(fs.drop_last()) + if fs.last() is None {
            1nat
        } else {
            0nat
        }
    }
}

impl SubnetTemplate {
    /// Four fields, exactly one of them the placeholder.
    pub open spec fn wf(&self) -> bool {
        self.fields@.len() == 4 && placeholder_count(self.fields@) == 1
    }

    /// The texts of the four fields.
    pub open spec fn field_texts(&self) -> Seq<Seq<char>> {
        self.fields@.map_values(|f: Option<u8>| field_text(f))
    }

    /// The address obtained by putting `host` in place of the placeholder.
    pub open spec fn filled(&self, host: u8) -> Ipv4Address {
        let pick = |f: Option<u8>|
            match f {
                Some(o) => o,
                None => host,
            };
        Ipv4Address {
            a: pick(self.fields@[0]),
            b: pick(self.fields@[1]),
            c: pick(self.fields@[2]),
            d: pick(self.fields@[3]),
        }
    }

    /// The address for `host`.
    pub fn fill(&self, host: u8) -> (r: Ipv4Address)
        requires
            self.wf(),
        ensures
            r == self.filled(host),
    {
        Ipv4Address {
            a: fill_field(self.fields[0], host),
            b: fill_field(self.fields[1], host),
            c: fill_field(self.fields[2], host),
            d: fill_field(self.fields[3], host),
        }
    }
}

fn fill_field(f: Option<u8>, host: u8) -> (r: u8)
    ensures
        r == match f {
            Some(o) => o,
            None => host,
        },
{
    match f {
        Some(o) => o,
        None => host,
    }
}

/// Whether `s` is a subnet template: four dot-separated fields, each an
/// octet in decimal without leading zeros or the placeholder `x`, with
/// exactly one placeholder.
pub open spec fn is_template_text(s: Seq<char>) -> bool {
    exists|t: SubnetTemplate| t.wf() && t.field_texts() == split_on(s, '.')
}

/// The octet whose decimal text is `f`, if there is one.
pub fn octet_of(f: &Vec<char>) -> (r: Option<u8>)
    ensures
        r matches Some(o) ==> f@ == dec(o as nat),
        r is None ==> forall|o: u8| f@ != dec(o as nat),
{
    let mut o: u16 = 0;
    while o < 256
        invariant
            o <= 256,
            forall|p: u8| (p as u16) < o ==> f@ != dec(p as nat),
        decreases 256 - o,
    {
        let d = decimal_chars(o as u64);
        if same_chars(f, &d) {
            return Some(o as u8);
        }
        o = o + 1;
    }
    None
}

fn is_placeholder_field(f: &Vec<char>) -> (r: bool)
    ensures
        r == (f@ == seq![PLACEHOLDER]),
{
    if f.len() == 1 && f[0] == PLACEHOLDER {
        assert(f@ =~= seq![PLACEHOLDER]);
        true
    } else {
        false
    }
}

proof fn lemma_dec_not_placeholder(o: u8)
    ensures
        dec(o as nat) != seq![PLACEHOLDER],
{
    lemma_dec_digits(o as nat);
    if dec(o as nat) == seq![PLACEHOLDER] {
        assert(is_digit(dec(o as nat)[0]));
    }
}

/// Parses a subnet template.
pub fn parse_subnet_template(s: &str) -> (r: Option<SubnetTemplate>)
    ensures
        r matches Some(t) ==> t.wf() && t.field_texts() == split_on(s@, '.'),
        r matches Some(t) ==> forall|u: SubnetTemplate|
            u.wf() && u.field_texts() == split_on(s@, '.') ==> u.fields@ == t.fields@,
        r is None <==> !is_template_text(s@),
{
    let parts = split_fields(s, '.');
    if parts.len() != 4 {
        proof {
            assert forall|t: SubnetTemplate| t.wf() implies t.field_texts() != split_on(s@, '.') by {
                assert(t.field_texts().len() == 4);
            }
        }
        return None;
    }
    let mut fields: Vec<Option<u8>> = Vec::new();
    let mut k: usize = 0;
    while k < 4
        invariant
            parts@.len() == 4,
            parts@.len() == split_on(s@, '.').len(),
            forall|i: int| 0 <= i < 4 ==> #[trigger] parts@[i]@ == split_on(s@, '.')[i],
            k <= 4,
            fields@.len() == k,
            forall|i: int| 0 <= i < k ==> field_text(#[trigger] fields@[i]) == split_on(s@, '.')[i],
        decreases 4 - k,
    {
        if is_placeholder_field(&parts[k]) {
            fields.push(None);
        } else {
            match octet_of(&parts[k]) {
                Some(o) => {
                    fields.push(Some(o));
                },
                None => {
                    proof {
                        assert forall|t: SubnetTemplate| t.wf() implies t.field_texts()
                            != split_on(s@, '.') by {
                            let f = t.fields@[k as int];
                            assert(t.field_texts()[k as int] == field_text(f));
                        }
                    }
                    return None;
                },
            }
        }
        k = k + 1;
    }
    let t = SubnetTemplate { fields };
    assert(t.field_texts() =~= split_on(s@, '.'));
    if count_placeholders(&t.fields) == 1 {
        proof {
            assert forall|u: SubnetTemplate|
                u.wf() && u.field_texts() == split_on(s@, '.') implies u.fields@ == t.fields@ by {
                assert forall|i: int| 0 <= i < 4 implies u.fields@[i] == t.fields@[i] by {
                    assert(u.field_texts()[i] == t.field_texts()[i]);
                    lemma_field_text_injective(u.fields@[i], t.fields@[i]);
                }
                assert(u.fields@ =~= t.fields@);
            }
        }
        Some(t)
    } else {
        proof {
            assert forall|u: SubnetTemplate| u.wf() implies u.field_texts() != split_on(s@, '.') by {
                if u.field_texts() == split_on(s@, '.') {
                    lemma_texts_determine_placeholders(u.fields@, t.fields@);
                }
            }
        }
        None
    }
}

proof fn lemma_field_text_injective(f: Option<u8>, g: Option<u8>)
    requires
        field_text(f) == field_text(g),
    ensures
        f == g,
{
    match (f, g) {
        (Some(a), Some(b)) => lemma_dec_injective(a as nat, b as nat),
        (Some(a), None) => lemma_dec_not_placeholder(a),
        (None, Some(b)) => lemma_dec_not_placeholder(b),
        (None, None) => {},
    }
}

proof fn lemma_texts_determine_placeholders(a: Seq<Option<u8>>, b: Seq<Option<u8>>)
    requires
        a.len() == b.len(),
        forall|i: int| 0 <= i < a.len() ==> field_text(a[i]) == field_text(b[i]),
    ensures
        placeholder_count(a) == placeholder_count(b),
    decreases a.len(),
{
    if a.len() > 0 {
        let i = a.len() - 1;
        assert(field_text(a[i]) == field_text(b[i]));
        if a[i] is None && b[i] is Some {
            lemma_dec_not_placeholder(b[i]->0);
        }
        if b[i] is None && a[i] is Some {
            lemma_dec_not_placeholder(a[i]->0);
        }
        lemma_texts_determine_placeholders(a.drop_last(), b.drop_last());
    }
}

fn count_placeholders(fs: &Vec<Option<u8>>) -> (r: usize)
    ensures
        r == placeholder_count(fs@),
{
    let mut n: usize = 0;
    let mut i: usize = 0;
    while i < fs.len()
        invariant
            i <= fs@.len(),
            n == placeholder_count(fs@.take(i as int)),
            n <= i,
        decreases fs@.len() - i,
    {
        assert(fs@.take(i as int + 1).drop_last() =~= fs@.take(i as int));
        if fs[i].is_none() {
            n = n + 1;
        }
        i = i + 1;
    }
    assert(fs@.take(fs@.len() as int) =~= fs@);
    n
}

/// Fields joined back with dots.
pub open spec fn join_dots(fs: Seq<Seq<char>>) -> Seq<char>
    decreases fs.len(),
{
    if fs.len() == 0 {
        Seq::<char>::empty()
    } else if fs.len() == 1 {
        fs[0]
    } else {
        join_dots(fs.drop_last()) + seq!['.'] + fs.last()
    }
}

/// Joining the fields of a text gives the text back.
pub proof fn lemma_join_fields(s: Seq<char>)
    ensures
        split_on(s, '.').len() >= 1,
        join_dots(split_on(s, '.')) == s,
    decreases s.len(),
{
    if s.len() > 0 {
        let p = s.drop_last();
        lemma_join_fields(p);
        let prev = split_on(p, '.');
        if s.last() == '.' {
            assert(split_on(s, '.').drop_last() =~= prev);
            assert(join_dots(split_on(s, '.')) =~= s);
        } else {
            let f = split_on(s, '.');
            if prev.len() == 1 {
                assert(f[0] =~= p.push(s.last()));
                assert(join_dots(f) =~= s);
            } else {
                assert(f.drop_last() =~= prev.drop_last());
                assert(join_dots(f) =~= join_dots(prev).push(s.last()));
                assert(join_dots(f) =~= s);
            }
        }
    }
}

proof fn lemma_four_fields(s: Seq<char>)
    requires
        split_on(s, '.').len() == 4,
    ensures
        s == dotted(split_on(s, '.')[0], split_on(s, '.')[1], split_on(s, '.')[2], split_on(s, '.')[3]),
{
    lemma_join_fields(s);
    let f = split_on(s, '.');
    let g2 = f.drop_last().drop_last();
    assert(g2.drop_last() =~= seq![f[0]]);
    assert(join_dots(seq![f[0]]) == f[0]);
    assert(g2.last() == f[1]);
    assert(f.drop_last().last() == f[2]);
    assert(join_dots(g2) == f[0] + seq!['.'] + f[1]);
    assert(join_dots(f.drop_last()) == f[0] + seq!['.'] + f[1] + seq!['.'] + f[2]);
    assert(s =~= dotted(f[0], f[1], f[2], f[3]));
}

/// Replacing distributes over concatenation.
pub proof fn lemma_replace_concat(a: Seq<char>, b: Seq<char>, from: char, to: Seq<char>)
    ensures
        replace_char(a + b, from, to) == replace_char(a, from, to) + replace_char(b, from, to),
    decreases b.len(),
{
    if b.len() == 0 {
        assert(a + b =~= a);
        assert(replace_char(a, from, to) + replace_char(b, from, to) =~= replace_char(a, from, to));
    } else {
        lemma_replace_concat(a, b.drop_last(), from, to);
        assert((a + b).drop_last() =~= a + b.drop_last());
        assert((a + b).last() == b.last());
    }
}

/// A text without `from` is left as it is.
pub proof fn lemma_replace_absent(s: Seq<char>, from: char, to: Seq<char>)
    requires
        forall|i: int| 0 <= i < s.len() ==> s[i] != from,
    ensures
        replace_char(s, from, to) == s,
    decreases s.len(),
{
    if s.len() > 0 {
        lemma_replace_absent(s.drop_last(), from, to);
        assert(replace_char(s, from, to) =~= s);
    }
}

proof fn lemma_replace_field(f: Option<u8>, host: u8)
    ensures
        replace_char(field_text(f), PLACEHOLDER, dec(host as nat)) == dec(
            match f {
                Some(o) => o,
                None => host,
            } as nat,
        ),
{
    match f {
        Some(o) => {
            lemma_dec_digits(o as nat);
            lemma_replace_absent(dec(o as nat), PLACEHOLDER, dec(host as nat));
        },
        None => {
            let t = seq![PLACEHOLDER];
            assert(t.drop_last() =~= Seq::<char>::empty());
            assert(replace_char(Seq::<char>::empty(), PLACEHOLDER, dec(host as nat)) =~= Seq::<
                char,
            >::empty());
            assert(replace_char(t, PLACEHOLDER, dec(host as nat)) =~= dec(host as nat));
        },
    }
}

/// Replacing the placeholder of a template text by the decimal text of
/// `host` gives the text of the filled address.
pub proof fn lemma_fill_text(t: SubnetTemplate, s: Seq<char>, host: u8)
    requires
        t.fields@.len() == 4,
        t.field_texts() == split_on(s, '.'),
    ensures
        replace_char(s, PLACEHOLDER, dec(host as nat)) == ipv4_text(t.filled(host)),
{
    let f = split_on(s, '.');
    let to = dec(host as nat);
    let dot = seq!['.'];
    assert(f.len() == 4);
    lemma_four_fields(s);
    assert(f[0] == field_text(t.fields@[0]));
    assert(f[1] == field_text(t.fields@[1]));
    assert(f[2] == field_text(t.fields@[2]));
    assert(f[3] == field_text(t.fields@[3]));
    lemma_replace_field(t.fields@[0], host);
    lemma_replace_field(t.fields@[1], host);
    lemma_replace_field(t.fields@[2], host);
    lemma_replace_field(t.fields@[3], host);
    assert(dot.drop_last() =~= Seq::<char>::empty());
    assert(replace_char(Seq::<char>::empty(), PLACEHOLDER, to) =~= Seq::<char>::empty());
    assert(replace_char(dot, PLACEHOLDER, to) =~= dot);
    lemma_replace_concat(f[0] + dot + f[1] + dot + f[2] + dot, f[3], PLACEHOLDER, to);
    lemma_replace_concat(f[0] + dot + f[1] + dot + f[2], dot, PLACEHOLDER, to);
    lemma_replace_concat(f[0] + dot + f[1] + dot, f[2], PLACEHOLDER, to);
    lemma_replace_concat(f[0] + dot + f[1], dot, PLACEHOLDER, to);
    lemma_replace_concat(f[0] + dot, f[1], PLACEHOLDER, to);
    lemma_replace_concat(f[0], dot, PLACEHOLDER, to);
}

/// Every subnet template yields an IPv4 address for every host octet: the
/// template with its placeholder replaced by the host's decimal text is an
/// IPv4 address in dotted-decimal form. In particular a text whose
/// placeholder, replaced by `1`, is no IPv4 address is no subnet template.
pub proof fn lemma_template_yields_ipv4(s: Seq<char>, host: u8)
    requires
        is_template_text(s),
    ensures
        is_ipv4_text(replace_char(s, PLACEHOLDER, dec(host as nat))),
{
    let t = choose|t: SubnetTemplate| t.wf() && t.field_texts() == split_on(s, '.');
    lemma_fill_text(t, s, host);
    assert(replace_char(s, PLACEHOLDER, dec(host as nat)) == ipv4_text(t.filled(host)));
}

/// Validation at load time: a text whose placeholder, replaced by `1`, does
/// not read as an IPv4 address is not accepted as a subnet template.
pub proof fn lemma_validation_rejects_non_ipv4(s: Seq<char>)
    requires
        !is_ipv4_text(replace_char(s, PLACEHOLDER, seq!['1'])),
    ensures
        !is_template_text(s),
{
    assert(dec(1) == seq!['1']);
    if is_template_text(s) {
        lemma_template_yields_ipv4(s, 1);
    }
}

/// The address of a VM with host octet `host_octet` in the subnet that
/// `subnet` describes. `None` exactly when `subnet` is no subnet template.
pub fn resolve(subnet: &str, host_octet: u8) -> (r: Option<Ipv4Address>)
    ensures
        r is Some <==> is_template_text(subnet@),
        r matches Some(ip) ==> ipv4_text(ip) == replace_char(
            subnet@,
            PLACEHOLDER,
            dec(host_octet as nat),
        ),
{
    match parse_subnet_template(subnet) {
        Some(t) => {
            proof {
                lemma_fill_text(t, subnet@, host_octet);
            }
            Some(t.fill(host_octet))
        },
        None => None,
    }
}

} // verus!
