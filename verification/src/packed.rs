//! Buffers that hold several strings one after the other, each ended by a NUL byte.

use vstd::prelude::*;
use vstd::slice::slice_subrange;
use vstd::slice::slice_to_vec;

verus! {

/// What stands between the NUL bytes of `bytes`: one field more than there are NUL bytes.
pub open spec fn fields(bytes: Seq<u8>) -> Seq<Seq<u8>>
    decreases bytes.len(),
{
    let p = crate::cstring::first_nul(bytes);
    if 0 <= p < bytes.len() {
        seq![bytes.take(p)] + fields(bytes.skip(p + 1))
    } else {
        seq![bytes]
    }
}

/// The views of the byte strings in `v`.
pub open spec fn byte_strings(v: Seq<Vec<u8>>) -> Seq<Seq<u8>> {
    v.map_values(|f: Vec<u8>| f@)
}

/// The buffer that holds `strings`, each followed by a NUL byte.
pub open spec fn packed(strings: Seq<Seq<u8>>) -> Seq<u8>
    decreases strings.len(),
{
    if strings.len() == 0 {
        seq![]
    } else {
        strings[0].push(0) + packed(strings.skip(1))
    }
}

/// The fields of `bytes` that hold anything.
pub open spec fn filled_fields(bytes: Seq<u8>) -> Seq<Seq<u8>> {
    fields(bytes).filter(|f: Seq<u8>| f.len() > 0)
}

/// The text that stands for bytes which need not be valid UTF-8.
pub uninterp spec fn utf8_lossy(bytes: Seq<u8>) -> Seq<char>;

/// `text` is what `bytes` read as: the string they encode where they are valid UTF-8, and
/// otherwise one in which the replacement character stands for what is not.
pub open spec fn reads_as(text: Seq<char>, bytes: Seq<u8>) -> bool {
    &&& text == utf8_lossy(bytes)
    &&& vstd::utf8::valid_utf8(bytes) ==> text == vstd::utf8::decode_utf8(bytes)
    &&& !vstd::utf8::valid_utf8(bytes) ==> text.contains('\u{FFFD}')
}

/// `texts` are what the byte strings of `list` read as, in their order.
pub open spec fn all_read_as(texts: Seq<String>, list: Seq<Seq<u8>>) -> bool {
    &&& texts.len() == list.len()
    &&& forall|i: int| 0 <= i < list.len() ==> reads_as(#[trigger] texts[i]@, list[i])
}

/// Calls `String::from_utf8_lossy` and owns what it returns. Its result is a function of the
/// bytes: the string they encode where they are valid UTF-8, and otherwise a string in which
/// U+FFFD stands for each invalid sequence, of which there is then at least one. How many bytes
/// one replacement stands for is left to the name `utf8_lossy`.
#[verifier::external_body]
pub(crate) fn from_utf8_lossy(bytes: &[u8]) -> (text: String)
    ensures
        text@ == utf8_lossy(bytes@),
        vstd::utf8::valid_utf8(bytes@) ==> text@ == vstd::utf8::decode_utf8(bytes@),
        !vstd::utf8::valid_utf8(bytes@) ==> text@.contains('\u{FFFD}'),
{
    String::from_utf8_lossy(bytes).into_owned()
}

/// Splits `bytes` at its NUL bytes.
pub fn split(bytes: &[u8]) -> (out: Vec<Vec<u8>>)
    ensures
        byte_strings(out@) == fields(bytes@),
{
    let mut out: Vec<Vec<u8>> = Vec::new();
    let mut start: usize = 0;
    let mut i: usize = 0;
    assert(bytes@.skip(0) =~= bytes@);
    assert(byte_strings(out@) + fields(bytes@) =~= fields(bytes@));
    while i < bytes.len()
        invariant
            start <= i <= bytes@.len(),
            forall|j: int| start <= j < i ==> bytes@[j] != 0,
            byte_strings(out@) + fields(bytes@.skip(start as int)) == fields(bytes@),
        decreases bytes@.len() - i,
    {
        if bytes[i] == 0 {
            let ghost rest = bytes@.skip(start as int);
            let ghost before = out@;
            let field = slice_to_vec(slice_subrange(bytes, start, i));
            out.push(field);
            proof {
                crate::cstring::first_nul_is(rest, i - start);
                assert(rest.take(i - start) =~= field@);
                assert(rest.skip(i - start + 1) =~= bytes@.skip(i + 1));
                assert(byte_strings(out@) =~= byte_strings(before).push(field@));
                assert(byte_strings(out@) + fields(bytes@.skip(i + 1)) =~= byte_strings(before) + (
                seq![field@] + fields(bytes@.skip(i + 1))));
            }
            start = i + 1;
        }
        i += 1;
    }
    let ghost rest = bytes@.skip(start as int);
    let ghost before = out@;
    let field = slice_to_vec(slice_subrange(bytes, start, bytes.len()));
    out.push(field);
    proof {
        crate::cstring::first_nul_is(rest, rest.len() as int);
        assert(rest =~= field@);
        assert(byte_strings(out@) =~= byte_strings(before) + seq![field@]);
    }
    out
}

/// The strings of a buffer of which `len` bytes are in use, the last of them the NUL of the last
/// string. Dropping that byte leaves exactly one field for each string.
pub fn strings(buf: &[u8], len: usize) -> (out: Vec<String>)
    requires
        len > 0 ==> len - 1 <= buf@.len(),
    ensures
        len == 0 ==> out@.len() == 0,
        len > 0 ==> all_read_as(out@, fields(buf@.take(len - 1))),
{
    let mut out: Vec<String> = Vec::new();
    if len == 0 {
        return out;
    }
    let parts = split(slice_subrange(buf, 0, len - 1));
    assert(buf@.subrange(0, len - 1) =~= buf@.take(len - 1));
    let ghost list = fields(buf@.take(len - 1));
    let mut i: usize = 0;
    while i < parts.len()
        invariant
            i <= parts@.len(),
            byte_strings(parts@) == list,
            out@.len() == i,
            forall|j: int| 0 <= j < i ==> reads_as(#[trigger] out@[j]@, list[j]),
        decreases parts@.len() - i,
    {
        assert(list[i as int] == parts@[i as int]@);
        out.push(from_utf8_lossy(parts[i].as_slice()));
        i += 1;
    }
    out
}

/// The strings of a buffer whose fields may be empty: only those that hold anything.
pub fn filled_strings(bytes: &[u8]) -> (out: Vec<String>)
    ensures
        all_read_as(out@, filled_fields(bytes@)),
{
    let mut out: Vec<String> = Vec::new();
    let parts = split(bytes);
    let ghost list = fields(bytes@);
    let ghost filled = |f: Seq<u8>| f.len() > 0;
    let mut i: usize = 0;
    assert(list.take(0).filter(filled) =~= seq![]) by {
        reveal(Seq::filter);
    }
    while i < parts.len()
        invariant
            i <= parts@.len(),
            byte_strings(parts@) == list,
            filled == (|f: Seq<u8>| f.len() > 0),
            all_read_as(out@, list.take(i as int).filter(filled)),
        decreases parts@.len() - i,
    {
        let ghost before = list.take(i as int).filter(filled);
        proof {
            assert(list[i as int] == parts@[i as int]@);
            assert(list.take(i + 1).drop_last() =~= list.take(i as int));
            assert(list.take(i + 1).last() == list[i as int]);
            reveal(Seq::filter);
        }
        if parts[i].len() > 0 {
            let ghost texts = out@;
            out.push(from_utf8_lossy(parts[i].as_slice()));
            assert(list.take(i + 1).filter(filled) == before.push(list[i as int]));
            assert forall|j: int| 0 <= j < before.len() + 1 implies reads_as(
                #[trigger] out@[j]@,
                before.push(list[i as int])[j],
            ) by {
                if j < before.len() {
                    assert(out@[j] == texts[j]);
                    assert(reads_as(texts[j]@, before[j]));
                }
            }
        }
        i += 1;
    }
    assert(list.take(parts@.len() as int) =~= list);
    out
}

/// A list of strings is read back from the buffer it was packed into: dropping the last NUL and
/// splitting at the others gives one field for each string, empty strings included.
pub proof fn packed_strings_are_read_back(list: Seq<Seq<u8>>)
    requires
        list.len() > 0,
        forall|i: int| 0 <= i < list.len() ==> crate::cstring::nul_free(#[trigger] list[i]),
    ensures
        packed(list).len() > 0,
        fields(packed(list).take(packed(list).len() - 1)) == list,
    decreases list.len(),
{
    let first = list[0];
    let rest = list.skip(1);
    let all = packed(list);
    if rest.len() == 0 {
        assert(all =~= first.push(0)) by {
            assert(packed(rest) =~= seq![]);
        }
        assert(all.take(all.len() - 1) =~= first);
        crate::cstring::first_nul_holds(first);
        assert(fields(first) =~= list);
    } else {
        assert forall|i: int| 0 <= i < rest.len() implies crate::cstring::nul_free(
            #[trigger] rest[i],
        ) by {
            assert(rest[i] == list[i + 1]);
        }
        packed_strings_are_read_back(rest);
        let tail = packed(rest);
        let cut = all.take(all.len() - 1);
        assert(cut =~= first.push(0) + tail.take(tail.len() - 1));
        assert forall|i: int| 0 <= i < first.len() implies cut[i] != 0 by {
            assert(cut[i] == first[i]);
        }
        crate::cstring::first_nul_is(cut, first.len() as int);
        assert(cut.take(first.len() as int) =~= first);
        assert(cut.skip(first.len() as int + 1) =~= tail.take(tail.len() - 1));
        assert(fields(cut) =~= list);
    }
}

/// A string comes back as it was: what the bytes of a string read as is the string.
pub proof fn strings_are_kept(text: Seq<char>, s: Seq<char>)
    requires
        reads_as(text, vstd::utf8::encode_utf8(s)),
    ensures
        text == s,
{
    vstd::utf8::encode_utf8_valid_utf8(s);
    vstd::utf8::encode_utf8_decode_utf8(s);
}

/// Bytes that are all NUL hold no field with anything in it.
proof fn lemma_padding_holds_nothing(n: nat)
    ensures
        filled_fields(Seq::new(n, |i: int| 0u8)) == Seq::<Seq<u8>>::empty(),
    decreases n,
{
    let padding = Seq::new(n, |i: int| 0u8);
    let nothing = Seq::<Seq<u8>>::empty();
    if n == 0 {
        assert(padding =~= seq![]);
        assert(fields(padding) =~= seq![padding] + nothing);
        lemma_filled_front(padding, nothing);
        assert(nothing.filter(|f: Seq<u8>| f.len() > 0) =~= nothing) by {
            reveal(Seq::filter);
        }
    } else {
        let less = Seq::new((n - 1) as nat, |i: int| 0u8);
        assert(padding.skip(1) =~= less);
        assert(padding.take(0) =~= Seq::<u8>::empty());
        crate::cstring::first_nul_is(padding, 0);
        lemma_padding_holds_nothing((n - 1) as nat);
        lemma_filled_front(padding.take(0), fields(less));
    }
}

/// Filtering a list with one more field at its front.
proof fn lemma_filled_front(first: Seq<u8>, rest: Seq<Seq<u8>>)
    ensures
        (seq![first] + rest).filter(|f: Seq<u8>| f.len() > 0) == (if first.len() > 0 {
            seq![first]
        } else {
            seq![]
        }) + rest.filter(|f: Seq<u8>| f.len() > 0),
    decreases rest.len(),
{
    reveal(Seq::filter);
    let filled = |f: Seq<u8>| f.len() > 0;
    let all = seq![first] + rest;
    if rest.len() == 0 {
        assert(all.drop_last() =~= seq![]);
        assert(all.drop_last().filter(filled) =~= seq![]);
        assert(rest.filter(filled) =~= seq![]);
    } else {
        assert(all.drop_last() =~= seq![first] + rest.drop_last());
        lemma_filled_front(first, rest.drop_last());
    }
}

/// Where no name is empty, none is left out.
proof fn lemma_all_filled(names: Seq<Seq<u8>>)
    requires
        forall|i: int| 0 <= i < names.len() ==> (#[trigger] names[i]).len() > 0,
    ensures
        names.filter(|f: Seq<u8>| f.len() > 0) == names,
    decreases names.len(),
{
    reveal(Seq::filter);
    if names.len() > 0 {
        let less = names.drop_last();
        assert forall|i: int| 0 <= i < less.len() implies (#[trigger] less[i]).len() > 0 by {
            assert(less[i] == names[i]);
        }
        lemma_all_filled(less);
        assert(names.last() == names[names.len() - 1]);
        assert(less.push(names.last()) =~= names);
    }
}

/// A list of names is read back from the buffer it was packed into, whatever number of NUL bytes
/// follows it there, but for empty names: an empty field is taken for padding.
pub proof fn packed_names_are_read_back(names: Seq<Seq<u8>>, padding: nat)
    requires
        forall|i: int| 0 <= i < names.len() ==> crate::cstring::nul_free(#[trigger] names[i]),
    ensures
        filled_fields(packed(names) + Seq::new(padding, |i: int| 0u8)) == names.filter(
            |f: Seq<u8>| f.len() > 0,
        ),
        (forall|i: int| 0 <= i < names.len() ==> (#[trigger] names[i]).len() > 0)
            ==> filled_fields(packed(names) + Seq::new(padding, |i: int| 0u8)) == names,
    decreases names.len(),
{
    let zeros = Seq::new(padding, |i: int| 0u8);
    let all = packed(names) + zeros;
    if names.len() == 0 {
        assert(all =~= zeros);
        lemma_padding_holds_nothing(padding);
        assert(names.filter(|f: Seq<u8>| f.len() > 0) =~= seq![]) by {
            reveal(Seq::filter);
        }
    } else {
        let first = names[0];
        let rest = names.skip(1);
        assert forall|i: int| 0 <= i < rest.len() implies crate::cstring::nul_free(
            #[trigger] rest[i],
        ) by {
            assert(rest[i] == names[i + 1]);
        }
        packed_names_are_read_back(rest, padding);
        assert(crate::cstring::nul_free(first));
        assert forall|i: int| 0 <= i < first.len() implies all[i] != 0 by {
            assert(all[i] == first[i]);
        }
        crate::cstring::first_nul_is(all, first.len() as int);
        assert(all.take(first.len() as int) =~= first);
        assert(all.skip(first.len() as int + 1) =~= packed(rest) + zeros);
        lemma_filled_front(first, fields(packed(rest) + zeros));
        lemma_filled_front(first, rest);
        assert(seq![first] + rest =~= names);
    }
    if forall|i: int| 0 <= i < names.len() ==> (#[trigger] names[i]).len() > 0 {
        lemma_all_filled(names);
    }
}

/// The strings of a list are the byte strings in it, one for one.
pub proof fn byte_strings_are_those_of_the_list(list: Seq<Vec<u8>>)
    ensures
        byte_strings(list).len() == list.len(),
        forall|i: int| 0 <= i < list.len() ==> byte_strings(list)[i] == (#[trigger] list[i])@,
{
}

/// Packing puts a NUL byte behind each string and the strings one after the other.
pub proof fn packing_ends_each_string_with_a_nul(list: Seq<Seq<u8>>)
    ensures
        packed(list) == list.map_values(|f: Seq<u8>| f.push(0)).flatten(),
    decreases list.len(),
{
    let ended = list.map_values(|f: Seq<u8>| f.push(0));
    if list.len() > 0 {
        let rest = list.skip(1);
        packing_ends_each_string_with_a_nul(rest);
        assert(ended.drop_first() =~= rest.map_values(|f: Seq<u8>| f.push(0)));
        assert(ended.first() == list[0].push(0));
    } else {
        assert(ended =~= seq![]);
    }
}

/// Nothing is lost in a split: no field holds a NUL byte, and the fields with a NUL byte behind
/// each make up the bytes again, with one NUL byte at the end. Only one list of fields does.
pub proof fn a_split_loses_nothing(bytes: Seq<u8>)
    ensures
        forall|i: int| 0 <= i < fields(bytes).len() ==> !(#[trigger] fields(bytes)[i]).contains(0u8),
        fields(bytes).map_values(|f: Seq<u8>| f.push(0)).flatten() == bytes.push(0),
        fields(bytes).len() > 0,
    decreases bytes.len(),
{
    let p = crate::cstring::first_nul(bytes);
    let all = fields(bytes);
    let ended = all.map_values(|f: Seq<u8>| f.push(0));
    crate::cstring::first_nul_holds(bytes);
    if p < bytes.len() {
        let rest = bytes.skip(p + 1);
        a_split_loses_nothing(rest);
        assert(all =~= seq![bytes.take(p)] + fields(rest));
        assert(ended.drop_first() =~= fields(rest).map_values(|f: Seq<u8>| f.push(0)));
        assert(ended.first() == bytes.take(p).push(0));
        assert(ended.flatten() =~= bytes.take(p).push(0) + rest.push(0));
        assert(bytes.take(p).push(0) + rest.push(0) =~= bytes.push(0));
        assert forall|i: int| 0 <= i < all.len() implies !(#[trigger] all[i]).contains(0u8) by {
            if i > 0 {
                assert(all[i] == fields(rest)[i - 1]);
            } else {
                crate::cstring::c_strings_do_not_contain_nul(bytes.take(p));
            }
        }
    } else {
        assert(all =~= seq![bytes]);
        assert(ended.drop_first() =~= seq![]);
        assert(ended.first() == bytes.push(0));
        assert(ended.drop_first().flatten() =~= seq![]);
        assert(ended.flatten() =~= bytes.push(0));
        crate::cstring::c_strings_do_not_contain_nul(bytes);
    }
}

/// The filled fields are the fields but for the empty ones, in their order.
pub proof fn only_empty_fields_are_left_out(bytes: Seq<u8>)
    ensures
        filled_fields(bytes) == fields(bytes).filter(|f: Seq<u8>| f.len() > 0),
        forall|f: Seq<u8>|
            filled_fields(bytes).contains(f) <==> fields(bytes).contains(f) && f.len() > 0,
{
    let filled = |f: Seq<u8>| f.len() > 0;
    let all = fields(bytes);
    assert forall|f: Seq<u8>|
        filled_fields(bytes).contains(f) <==> all.contains(f) && f.len() > 0 by {
        if filled_fields(bytes).contains(f) {
            all.lemma_filter_contains_rev(filled, f);
            let i = choose|i: int| 0 <= i < all.filter(filled).len() && all.filter(filled)[i] == f;
            all.lemma_filter_pred(filled, i);
        }
        if all.contains(f) && f.len() > 0 {
            let i = choose|i: int| 0 <= i < all.len() && all[i] == f;
            all.lemma_filter_contains(filled, i);
        }
    }
}

/// Bytes read as one text alone. Where they are valid UTF-8 it is the one they encode, whole, and
/// where they are not it shows the replacement character.
pub proof fn bytes_read_as_one_text(text: Seq<char>, other: Seq<char>, bytes: Seq<u8>)
    requires
        reads_as(text, bytes),
    ensures
        reads_as(other, bytes) <==> other == text,
        text == utf8_lossy(bytes),
        vstd::utf8::valid_utf8(bytes) ==> vstd::utf8::encode_utf8(text) == bytes,
        !vstd::utf8::valid_utf8(bytes) ==> text.contains('\u{FFFD}'),
{
    if vstd::utf8::valid_utf8(bytes) {
        vstd::utf8::decode_utf8_encode_utf8(bytes);
    }
}

/// A list of texts has one for each byte string, the one that it reads as.
pub proof fn each_text_is_read_from_its_bytes(texts: Seq<String>, list: Seq<Seq<u8>>)
    requires
        all_read_as(texts, list),
    ensures
        texts.len() == list.len(),
        forall|i: int| 0 <= i < list.len() ==> (#[trigger] texts[i])@ == utf8_lossy(list[i]),
        forall|i: int|
            0 <= i < list.len() && vstd::utf8::valid_utf8(list[i])
                ==> vstd::utf8::encode_utf8((#[trigger] texts[i])@) == list[i],
{
    assert forall|i: int| 0 <= i < list.len() implies (#[trigger] texts[i])@ == utf8_lossy(list[i])
        && (vstd::utf8::valid_utf8(list[i]) ==> vstd::utf8::encode_utf8(texts[i]@) == list[i]) by {
        bytes_read_as_one_text(texts[i]@, texts[i]@, list[i]);
    }
}

/// Texts are packed as their encodings, each with a NUL byte behind it.
pub proof fn texts_are_packed(texts: Seq<Seq<char>>)
    ensures
        packed(texts.map_values(|t: Seq<char>| vstd::utf8::encode_utf8(t))) == texts.map_values(
            |t: Seq<char>| vstd::utf8::encode_utf8(t).push(0),
        ).flatten(),
{
    let list = texts.map_values(|t: Seq<char>| vstd::utf8::encode_utf8(t));
    packing_ends_each_string_with_a_nul(list);
    assert(list.map_values(|f: Seq<u8>| f.push(0)) =~= texts.map_values(
        |t: Seq<char>| vstd::utf8::encode_utf8(t).push(0),
    ));
}

} // verus!
