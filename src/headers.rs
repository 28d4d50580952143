use vstd::prelude::*;
use vstd::string::StringSliceAdditionalSpecFns;
use vstd::utf8::encode_utf8;

verus! {

/// One response header: its name, and its value as raw bytes.
pub struct Header {
    pub name: String,
    pub value: Vec<u8>,
}

/// What a header holds: its name's characters and its value's bytes.
pub type HeaderView = (Seq<char>, Seq<u8>);

impl View for Header {
    type V = HeaderView;

    open spec fn view(&self) -> HeaderView {
        (self.name@, self.value@)
    }
}

impl Header {
    pub fn new(name: String, value: Vec<u8>) -> (r: Header)
        ensures
            r@ == (name@, value@),
    {
        Header { name, value }
    }

    /// A copy holding the same name and value.
    pub fn duplicate(&self) -> (r: Header)
        ensures
            r@ == self@,
    {
        let mut value: Vec<u8> = Vec::new();
        value.extend_from_slice(self.value.as_slice());
        assert(value@ =~= self.value@);
        Header { name: self.name.clone(), value }
    }
}

/// The views of a sequence of headers, in order.
pub open spec fn views(hs: Seq<Header>) -> Seq<HeaderView> {
    hs.map_values(|h: Header| h@)
}

/// The UTF-8 bytes of a header name.
pub open spec fn name_bytes(name: Seq<char>) -> Seq<u8> {
    encode_utf8(name)
}

/// `b` with an ASCII upper-case letter turned to lower case.
pub open spec fn ascii_lower(b: u8) -> u8 {
    if 65 <= b <= 90 {
        (b + 32) as u8
    } else {
        b
    }
}

/// Equal byte strings once ASCII letters are folded to lower case.
pub open spec fn eq_ignore_ascii_case(a: Seq<u8>, b: Seq<u8>) -> bool {
    a.len() == b.len() && forall|i: int| 0 <= i < a.len() ==> ascii_lower(a[i]) == ascii_lower(b[i])
}

/// `s` begins with `prefix`, ASCII case ignored.
pub open spec fn starts_with_ignore_ascii_case(s: Seq<u8>, prefix: Seq<u8>) -> bool {
    prefix.len() <= s.len() && eq_ignore_ascii_case(s.subrange(0, prefix.len() as int), prefix)
}

/// Bytes that make up a header value readable as text: visible ASCII and tab.
pub open spec fn is_visible_ascii(v: Seq<u8>) -> bool {
    forall|i: int| 0 <= i < v.len() ==> (32 <= #[trigger] v[i] < 127 || v[i] == 9)
}

fn lower_byte(b: u8) -> (r: u8)
    ensures
        r == ascii_lower(b),
{
    if 65 <= b && b <= 90 {
        b + 32
    } else {
        b
    }
}

/// Compares `a[start..start + b.len()]` with `b`, ASCII case ignored.
fn eq_ignore_case_at(a: &[u8], start: usize, b: &[u8]) -> (r: bool)
    requires
        start as int + b@.len() <= a@.len(),
    ensures
        r == eq_ignore_ascii_case(a@.subrange(start as int, start + b@.len()), b@),
{
    let alen = a.len();
    let mut i: usize = 0;
    while i < b.len()
        invariant
            alen == a@.len(),
            start as int + b@.len() <= a@.len(),
            i <= b@.len(),
            forall|k: int| 0 <= k < i ==> ascii_lower(a@[start + k]) == ascii_lower(b@[k]),
        decreases b@.len() - i,
    {
        if lower_byte(a[start + i]) != lower_byte(b[i]) {
            assert(a@.subrange(start as int, start + b@.len())[i as int] == a@[start + i]);
            return false;
        }
        i = i + 1;
    }
    assert forall|k: int| 0 <= k < b@.len() implies ascii_lower(
        a@.subrange(start as int, start + b@.len())[k],
    ) == ascii_lower(b@[k]) by {
        assert(a@.subrange(start as int, start + b@.len())[k] == a@[start + k]);
    }
    true
}

/// Whether two byte strings are equal, ASCII case ignored.
pub fn bytes_eq_ignore_ascii_case(a: &[u8], b: &[u8]) -> (r: bool)
    ensures
        r == eq_ignore_ascii_case(a@, b@),
{
    if a.len() != b.len() {
        return false;
    }
    let r = eq_ignore_case_at(a, 0, b);
    assert(a@.subrange(0, b@.len() as int) =~= a@);
    r
}

/// Whether `s` begins with `prefix`, ASCII case ignored.
pub fn bytes_start_with_ignore_ascii_case(s: &[u8], prefix: &[u8]) -> (r: bool)
    ensures
        r == starts_with_ignore_ascii_case(s@, prefix@),
{
    if prefix.len() > s.len() {
        return false;
    }
    eq_ignore_case_at(s, 0, prefix)
}

/// Whether every byte of `v` is visible ASCII or a tab.
pub fn bytes_are_visible_ascii(v: &[u8]) -> (r: bool)
    ensures
        r == is_visible_ascii(v@),
{
    let mut i: usize = 0;
    while i < v.len()
        invariant
            i <= v@.len(),
            forall|k: int| 0 <= k < i ==> (32 <= #[trigger] v@[k] < 127 || v@[k] == 9),
        decreases v@.len() - i,
    {
        let b = v[i];
        if !((32 <= b && b < 127) || b == 9) {
            return false;
        }
        i = i + 1;
    }
    true
}

/// The UTF-8 bytes of a string.
pub fn string_bytes(s: &String) -> (r: &[u8])
    ensures
        r@ == name_bytes(s@),
{
    s.as_str().as_bytes()
}

} // verus!
