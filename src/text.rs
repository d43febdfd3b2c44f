use vstd::prelude::*;
use vstd::utf8::*;

verus! {

/// Width in bytes of the scalar value whose encoding starts at `bytes[i]`,
/// or 0 where no well-formed encoding starts there.
fn first_scalar_width(bytes: &[u8], i: usize) -> (w: usize)
    requires
        i < bytes@.len(),
    ensures
        ({
            let rest = bytes@.subrange(i as int, bytes@.len() as int);
            &&& valid_first_scalar(rest) ==> w == length_of_first_scalar(rest)
            &&& !valid_first_scalar(rest) ==> w == 0
        }),
{
    let ghost rest = bytes@.subrange(i as int, bytes@.len() as int);
    let n = bytes.len() - i;
    let b0 = bytes[i];
    if b0 <= 0x7f {
        return 1;
    }
    if 0xc0 <= b0 && b0 <= 0xdf {
        if n >= 2 && 0x80 <= bytes[i + 1] && bytes[i + 1] <= 0xbf {
            let cp: u32 = (((b0 & 0x1f) as u32) << 6) | ((bytes[i + 1] & 0x3f) as u32);
            assert(cp == decode_first_codepoint(rest));
            if 0x80 <= cp && !(0xd800 <= cp && cp <= 0xdfff) {
                return 2;
            }
        }
        return 0;
    }
    if 0xe0 <= b0 && b0 <= 0xef {
        if n >= 3 && 0x80 <= bytes[i + 1] && bytes[i + 1] <= 0xbf && 0x80 <= bytes[i + 2]
            && bytes[i + 2] <= 0xbf {
            let cp: u32 = (((b0 & 0x0f) as u32) << 12) | (((bytes[i + 1] & 0x3f) as u32) << 6)
                | ((bytes[i + 2] & 0x3f) as u32);
            assert(cp == decode_first_codepoint(rest));
            if 0x800 <= cp && !(0xd800 <= cp && cp <= 0xdfff) {
                return 3;
            }
        }
        return 0;
    }
    if 0xf0 <= b0 && b0 <= 0xf7 {
        if n >= 4 && 0x80 <= bytes[i + 1] && bytes[i + 1] <= 0xbf && 0x80 <= bytes[i + 2]
            && bytes[i + 2] <= 0xbf && 0x80 <= bytes[i + 3] && bytes[i + 3] <= 0xbf {
            let cp: u32 = (((b0 & 0x07) as u32) << 18) | (((bytes[i + 1] & 0x3f) as u32) << 12)
                | (((bytes[i + 2] & 0x3f) as u32) << 6) | ((bytes[i + 3] & 0x3f) as u32);
            assert(cp == decode_first_codepoint(rest));
            if 0x10000 <= cp && cp <= 0x10ffff && !(0xd800 <= cp && cp <= 0xdfff) {
                return 4;
            }
        }
        return 0;
    }
    0
}

/// Whether the whole byte content is well-formed UTF-8 text.
pub fn is_utf8(bytes: &[u8]) -> (r: bool)
    ensures
        r == valid_utf8(bytes@),
{
    let mut i: usize = 0;
    assert(bytes@.subrange(0, 0) =~= Seq::<u8>::empty());
    while i < bytes.len()
        invariant
            partial_valid_utf8(bytes@, i as int),
        decreases bytes.len() - i,
    {
        let w = first_scalar_width(bytes, i);
        if w == 0 {
            proof {
                partial_valid_partial_invalid_utf8(bytes@, i as int);
            }
            return false;
        }
        proof {
            partial_valid_utf8_extend(bytes@, i as int);
        }
        i = i + w;
    }
    assert(bytes@.subrange(0, bytes@.len() as int) =~= bytes@);
    true
}

/// What one character of content becomes in the output: a double quote gains
/// a backslash in front, every other character stands as it is.
pub open spec fn escaped_char(c: char) -> Seq<char> {
    if c == '"' {
        seq!['\\', '"']
    } else {
        seq![c]
    }
}

/// Content with every double quote preceded by a backslash.
pub open spec fn escape_quotes_spec(s: Seq<char>) -> Seq<char>
    decreases s.len(),
{
    if s.len() == 0 {
        seq![]
    } else {
        escaped_char(s[0]) + escape_quotes_spec(s.skip(1))
    }
}

/// Reads escaped content back: a backslash directly followed by a double
/// quote stands for that quote.
pub open spec fn unescape_quotes_spec(s: Seq<char>) -> Seq<char>
    decreases s.len(),
{
    if s.len() == 0 {
        seq![]
    } else if s.len() >= 2 && s[0] == '\\' && s[1] == '"' {
        seq!['"'] + unescape_quotes_spec(s.skip(2))
    } else {
        seq![s[0]] + unescape_quotes_spec(s.skip(1))
    }
}

/// Escaping distributes over appending one character.
pub proof fn lemma_escape_push(s: Seq<char>, c: char)
    ensures
        escape_quotes_spec(s.push(c)) == escape_quotes_spec(s) + escaped_char(c),
    decreases s.len(),
{
    if s.len() == 0 {
        let t = s.push(c);
        assert(t.skip(1) =~= Seq::<char>::empty());
        assert(escape_quotes_spec(t.skip(1)) == Seq::<char>::empty());
        assert(escape_quotes_spec(s) == Seq::<char>::empty());
        assert(escape_quotes_spec(t) =~= escaped_char(t[0]) + escape_quotes_spec(t.skip(1)));
        assert(escape_quotes_spec(t) =~= escape_quotes_spec(s) + escaped_char(c));
    } else {
        assert(s.push(c).skip(1) =~= s.skip(1).push(c));
        lemma_escape_push(s.skip(1), c);
        assert(escape_quotes_spec(s.push(c)) =~= escape_quotes_spec(s) + escaped_char(c));
    }
}

/// Escaped content never begins with a bare double quote.
proof fn lemma_escape_first(s: Seq<char>)
    ensures
        escape_quotes_spec(s).len() > 0 ==> escape_quotes_spec(s)[0] != '"',
    decreases s.len(),
{
}

/// Unescaping escaped content gives back the content.
pub proof fn lemma_unescape_escape(s: Seq<char>)
    ensures
        unescape_quotes_spec(escape_quotes_spec(s)) == s,
    decreases s.len(),
{
    if s.len() > 0 {
        let e = escape_quotes_spec(s);
        let rest = escape_quotes_spec(s.skip(1));
        lemma_unescape_escape(s.skip(1));
        lemma_escape_first(s.skip(1));
        if s[0] == '"' {
            assert(e.skip(2) =~= rest);
        } else {
            assert(e.skip(1) =~= rest);
        }
        assert(unescape_quotes_spec(e) =~= s);
    }
}

/// Relies on `String::push`: the character is appended at the end.
#[verifier::external_body]
pub(crate) fn push_char(s: &mut String, c: char)
    ensures
        final(s)@ == old(s)@.push(c),
{
    s.push(c)
}

/// Relies on `std::str::from_utf8`: it succeeds exactly on well-formed UTF-8,
/// and then the text holds the characters that the bytes encode.
#[verifier::external_body]
pub(crate) fn decode_text(bytes: &[u8]) -> (r: Option<String>)
    ensures
        r is Some <==> valid_utf8(bytes@),
        r matches Some(t) ==> t@ == decode_utf8(bytes@),
{
    match std::str::from_utf8(bytes) {
        Ok(t) => Some(t.to_string()),
        Err(_) => None,
    }
}

/// Appends `s` to `out` with every double quote preceded by a backslash.
pub fn push_escaped(out: &mut String, s: &str)
    ensures
        final(out)@ == old(out)@ + escape_quotes_spec(s@),
{
    let ghost start = out@;
    for c in it: s.chars()
        invariant
            it.seq() == s@,
            out@ == start + escape_quotes_spec(s@.take(it.index() as int)),
    {
        proof {
            assert(s@.take(it.index() + 1) =~= s@.take(it.index() as int).push(c));
            lemma_escape_push(s@.take(it.index() as int), c);
        }
        if c == '"' {
            push_char(out, '\\');
            push_char(out, '"');
        } else {
            push_char(out, c);
        }
        assert(out@ =~= start + escape_quotes_spec(s@.take(it.index() + 1)));
    }
    assert(s@.take(s@.len() as int) =~= s@);
}

/// `s` with every double quote preceded by a backslash.
pub fn escape_quotes(s: &str) -> (r: String)
    ensures
        r@ == escape_quotes_spec(s@),
{
    let mut r = String::new();
    push_escaped(&mut r, s);
    assert(r@ =~= escape_quotes_spec(s@));
    r
}

} // verus!
