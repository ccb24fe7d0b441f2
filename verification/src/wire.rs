//! The forms that header values have on the wire, and what the library makes of them.

use http::header::HeaderMap;
use vstd::arithmetic::power::*;
use vstd::prelude::*;
use vstd::string::*;
use vstd::utf8::*;

use crate::body_limit;
use crate::compression;
use crate::compression::{CompressionEncoding, Status};
use crate::header;
use crate::laws;
use crate::text;

verus! {

/// A run of space, tab, line feed, vertical tab, form feed and carriage return.
pub open spec fn is_blank(s: Seq<u8>) -> bool {
    forall|i: int|
        #![trigger s[i]]
        0 <= i < s.len() ==> s[i] == 32 || s[i] == 9 || s[i] == 10 || s[i] == 11 || s[i] == 12
            || s[i] == 13
}

/// Whether `s` is `core` with blanks before and behind it.
pub open spec fn padded(s: Seq<u8>, core: Seq<u8>) -> bool {
    exists|left: Seq<u8>, right: Seq<u8>|
        is_blank(left) && is_blank(right) && s == #[trigger] (left + core + right)
}

/// Whether `s` neither starts nor ends with a blank.
pub open spec fn is_bare(s: Seq<u8>) -> bool {
    s.len() > 0 ==> !is_blank(seq![s[0]]) && !is_blank(seq![s[s.len() - 1]])
}

proof fn lemma_blank_is_space(octet: u8)
    ensures
        is_blank(seq![octet]) <==> text::is_space(octet),
{
    let s = seq![octet];
    assert(s[0] == octet);
}

/// Trimming takes every blank off the two ends, and nothing else.
pub proof fn law_trimming(s: Seq<u8>)
    ensures
        padded(s, text::trimmed(s)),
        is_bare(text::trimmed(s)),
    decreases s.len(),
{
    let core = text::trimmed(s);
    if s.len() == 0 {
        assert(s =~= s + s + s);
    } else {
        lemma_blank_is_space(s.first());
        lemma_blank_is_space(s.last());
        if text::is_space(s.first()) {
            let rest = s.drop_first();
            law_trimming(rest);
            assert(padded(rest, core));
            let (left, right) = choose|left: Seq<u8>, right: Seq<u8>|
                is_blank(left) && is_blank(right) && rest == #[trigger] (left + core + right);
            let more = seq![s.first()] + left;
            assert(is_blank(more));
            assert(s =~= seq![s.first()] + rest);
            assert(s =~= more + core + right);
        } else if text::is_space(s.last()) {
            let rest = s.drop_last();
            law_trimming(rest);
            assert(padded(rest, core));
            let (left, right) = choose|left: Seq<u8>, right: Seq<u8>|
                is_blank(left) && is_blank(right) && rest == #[trigger] (left + core + right);
            let more = right.push(s.last());
            assert(is_blank(more));
            assert(s =~= rest.push(s.last()));
            assert(s =~= left + core + more);
        } else {
            let none = Seq::<u8>::empty();
            assert(is_blank(none));
            assert(s =~= none + s + none);
        }
    }
}

/// Whatever blanks are put before and behind a text that starts and ends with none,
/// trimming gives back the text.
pub proof fn law_padding_is_trimmed(left: Seq<u8>, core: Seq<u8>, right: Seq<u8>)
    requires
        is_blank(left),
        is_blank(right),
        is_bare(core),
    ensures
        text::trimmed(left + core + right) == core,
    decreases left.len() + right.len(),
{
    let s = left + core + right;
    if left.len() > 0 {
        assert(s.first() == left[0]);
        assert(text::is_space(s.first()));
        let rest = left.drop_first();
        assert(s.drop_first() =~= rest + core + right);
        law_padding_is_trimmed(rest, core, right);
    } else if core.len() == 0 {
        assert(s =~= right);
        if right.len() > 0 {
            let rest = right.drop_first();
            assert(s.first() == right[0]);
            assert(s.drop_first() =~= left + core + rest);
            law_padding_is_trimmed(left, core, rest);
        } else {
            assert(s =~= core);
        }
    } else {
        lemma_blank_is_space(core[0]);
        lemma_blank_is_space(core[core.len() - 1]);
        assert(s.first() == core[0]);
        if right.len() > 0 {
            let rest = right.drop_last();
            assert(s.last() == right[right.len() - 1]);
            assert(s.drop_last() =~= left + core + rest);
            law_padding_is_trimmed(left, core, rest);
        } else {
            assert(s =~= core);
        }
    }
}

/// A text that starts and ends with no blank is what trimming gives exactly for its paddings.
proof fn lemma_padded(s: Seq<u8>, core: Seq<u8>)
    requires
        is_bare(core),
    ensures
        padded(s, core) <==> text::trimmed(s) == core,
{
    law_trimming(s);
    if padded(s, core) {
        let (left, right) = choose|left: Seq<u8>, right: Seq<u8>|
            is_blank(left) && is_blank(right) && s == #[trigger] (left + core + right);
        law_padding_is_trimmed(left, core, right);
    }
}

/// Joining no pieces gives nothing, joining one gives that piece, and each further piece
/// adds the separator and itself.
pub proof fn law_joining(pieces: Seq<Seq<u8>>, last: Seq<u8>, separator: u8)
    ensures
        text::joined(Seq::empty(), separator) == Seq::<u8>::empty(),
        text::joined(seq![last], separator) == last,
        pieces.len() > 0 ==> text::joined(pieces.push(last), separator) == text::joined(
            pieces,
            separator,
        ) + seq![separator] + last,
{
    if pieces.len() > 0 {
        text::lemma_joined_push(pieces, last, separator);
    }
}

/// The pieces of a text hold no separator, and joined they are the text again.
pub proof fn law_splitting(s: Seq<u8>, separator: u8)
    ensures
        text::split_on(s, separator).len() > 0,
        text::joined(text::split_on(s, separator), separator) == s,
        forall|i: int|
            0 <= i < text::split_on(s, separator).len() ==> !(#[trigger] text::split_on(
                s,
                separator,
            )[i]).contains(separator),
    decreases s.len(),
{
    let pieces = text::split_on(s, separator);
    if s.contains(separator) {
        s.index_of_first_ensures(separator);
        let end = s.index_of_first(separator)->0;
        let head = s.take(end);
        let rest = s.skip(end + 1);
        let tail = text::split_on(rest, separator);
        law_splitting(rest, separator);
        assert(pieces =~= seq![head] + tail);
        assert(pieces.drop_first() =~= tail);
        assert(s =~= head + seq![separator] + rest);
        assert(!head.contains(separator)) by {
            if head.contains(separator) {
                let i = choose|i: int| 0 <= i < head.len() && head[i] == separator;
                assert(s[i] == separator);
            }
        }
        assert forall|i: int| 0 <= i < pieces.len() implies !(#[trigger] pieces[i]).contains(
            separator,
        ) by {
            if i > 0 {
                assert(pieces[i] == tail[i - 1]);
            }
        }
    } else {
        assert(pieces =~= seq![s]);
    }
}

/// The name of an encoding, character by character.
pub open spec fn wire_text(encoding: CompressionEncoding) -> Seq<char> {
    match encoding {
        CompressionEncoding::Gzip(_) => seq!['g', 'z', 'i', 'p'],
        CompressionEncoding::Zlib(_) => seq!['z', 'l', 'i', 'b'],
        CompressionEncoding::Zstd(_) => seq!['z', 's', 't', 'd'],
        CompressionEncoding::Identity => seq!['i', 'd', 'e', 'n', 't', 'i', 't', 'y'],
    }
}

/// The name of an encoding, octet by octet.
pub open spec fn wire_name(encoding: CompressionEncoding) -> Seq<u8> {
    wire_text(encoding).map_values(|c: char| c as u8)
}

/// Whether two encodings are made by one constructor.
pub open spec fn alike(left: CompressionEncoding, right: CompressionEncoding) -> bool {
    ||| left is Gzip && right is Gzip
    ||| left is Zlib && right is Zlib
    ||| left is Zstd && right is Zstd
    ||| left is Identity && right is Identity
}

/// Encodings go by the names `gzip`, `zlib`, `zstd` and `identity`, in lower case, and by
/// these alone: what is configured for an encoding makes no difference.
pub proof fn law_names(encoding: CompressionEncoding, other: CompressionEncoding)
    ensures
        compression::encoding_name(encoding) == wire_text(encoding),
        encode_utf8(compression::encoding_name(encoding)) == wire_name(encoding),
        compression::same_kind(encoding, other) <==> alike(encoding, other),
        wire_name(encoding) == wire_name(other) <==> alike(encoding, other),
        wire_text(encoding) == wire_text(other) <==> alike(encoding, other),
{
    reveal_strlit("gzip");
    reveal_strlit("zlib");
    reveal_strlit("zstd");
    reveal_strlit("identity");
    let name = compression::encoding_name(encoding);
    assert(name =~= wire_text(encoding));
    assert(is_ascii_chars(name));
    is_ascii_chars_encode_utf8(name);
    assert forall|i: int| 0 <= i < name.len() implies encode_utf8(name)[i] == #[trigger] wire_name(
        encoding,
    )[i] by {
        assert(encode_utf8(name)[i] == name[i] as u8);
    }
    assert(encode_utf8(name) =~= wire_name(encoding));
    let left = wire_text(encoding);
    let right = wire_text(other);
    assert(wire_name(encoding)[0] == left[0] as u8);
    assert(wire_name(encoding)[1] == left[1] as u8);
    assert(wire_name(other)[0] == right[0] as u8);
    assert(wire_name(other)[1] == right[1] as u8);
}

/// Whether the entry of an accept list asks for `encoding`: it is the name of the encoding,
/// with whatever blanks around it, and the encoding compresses.
pub open spec fn asks_for(entry: Seq<u8>, encoding: CompressionEncoding) -> bool {
    !(encoding is Identity) && padded(entry, wire_name(encoding))
}

/// Whether entry `i` is the first that asks for anything that is available, and encoding
/// `k` is the first available one that it asks for.
pub open spec fn is_first_match(
    entries: Seq<Seq<u8>>,
    available: Seq<CompressionEncoding>,
    i: int,
    k: int,
) -> bool {
    &&& 0 <= i < entries.len()
    &&& 0 <= k < available.len()
    &&& asks_for(entries[i], available[k])
    &&& forall|j: int| 0 <= j < k ==> !asks_for(entries[i], #[trigger] available[j])
    &&& forall|h: int, j: int|
        0 <= h < i && 0 <= j < available.len() ==> !#[trigger] asks_for(entries[h], available[j])
}

/// The available encodings that an entry asks for are those of the kind that its trimmed
/// text names.
proof fn lemma_asks_for(entry: Seq<u8>, encoding: CompressionEncoding)
    ensures
        asks_for(entry, encoding) <==> (compression::named_kind(text::trimmed(entry)) matches Some(
            kind,
        ) && compression::same_kind(encoding, kind)),
{
    let gzip = CompressionEncoding::Gzip(None);
    let zlib = CompressionEncoding::Zlib(None);
    let zstd = CompressionEncoding::Zstd(None);
    law_names(encoding, gzip);
    law_names(encoding, zlib);
    law_names(encoding, zstd);
    law_names(gzip, zlib);
    law_names(zlib, zstd);
    law_names(zstd, gzip);
    let name = wire_name(encoding);
    assert forall|i: int| 0 <= i < name.len() implies 97 <= #[trigger] name[i] <= 122 by {
        compression::lemma_names(encoding);
    }
    assert(is_bare(name)) by {
        assert(seq![name[0]][0] == name[0]);
        assert(seq![name[name.len() - 1]][0] == name[name.len() - 1]);
    }
    lemma_padded(entry, name);
}

/// The first encoding of a kind stands at an index before which there is none of the kind.
proof fn lemma_first_index(available: Seq<CompressionEncoding>, kind: CompressionEncoding)
    ensures
        match compression::first_of_kind(available, kind) {
            Some(encoding) => exists|k: int|
                {
                    &&& 0 <= k < available.len()
                    &&& #[trigger] available[k] == encoding
                    &&& compression::same_kind(available[k], kind)
                    &&& forall|j: int|
                        0 <= j < k ==> !compression::same_kind(#[trigger] available[j], kind)
                },
            None => forall|k: int|
                0 <= k < available.len() ==> !compression::same_kind(
                    #[trigger] available[k],
                    kind,
                ),
        },
    decreases available.len(),
{
    if available.len() > 0 {
        let rest = available.drop_first();
        lemma_first_index(rest, kind);
        if compression::same_kind(available[0], kind) {
            assert(available[0] == compression::first_of_kind(available, kind)->0);
        } else {
            match compression::first_of_kind(rest, kind) {
                Some(encoding) => {
                    let k = choose|k: int|
                        {
                            &&& 0 <= k < rest.len()
                            &&& #[trigger] rest[k] == encoding
                            &&& compression::same_kind(rest[k], kind)
                            &&& forall|j: int|
                                0 <= j < k ==> !compression::same_kind(#[trigger] rest[j], kind)
                        };
                    assert(available[k + 1] == encoding);
                    assert forall|j: int| 0 <= j < k + 1 implies !compression::same_kind(
                        #[trigger] available[j],
                        kind,
                    ) by {
                        if j > 0 {
                            assert(available[j] == rest[j - 1]);
                        }
                    }
                },
                None => {
                    assert forall|k: int| 0 <= k < available.len() implies !compression::same_kind(
                        #[trigger] available[k],
                        kind,
                    ) by {
                        if k > 0 {
                            assert(available[k] == rest[k - 1]);
                        }
                    }
                },
            }
        }
    }
}

proof fn lemma_entry(entries: Seq<Seq<u8>>, available: Seq<CompressionEncoding>)
    requires
        entries.len() > 0,
    ensures
        match compression::entry_choice(entries[0], available) {
            Some(encoding) => exists|k: int|
                {
                    &&& #[trigger] is_first_match(entries, available, 0, k)
                    &&& available[k] == encoding
                },
            None => forall|k: int|
                0 <= k < available.len() ==> !asks_for(entries[0], #[trigger] available[k]),
        },
{
    let entry = entries[0];
    assert forall|k: int| 0 <= k < available.len() implies (asks_for(entry, #[trigger] available[k])
        <==> (compression::named_kind(text::trimmed(entry)) matches Some(kind)
        && compression::same_kind(available[k], kind))) by {
        lemma_asks_for(entry, available[k]);
    }
    match compression::named_kind(text::trimmed(entry)) {
        Some(kind) => {
            lemma_first_index(available, kind);
            match compression::first_of_kind(available, kind) {
                Some(encoding) => {
                    let k = choose|k: int|
                        {
                            &&& 0 <= k < available.len()
                            &&& #[trigger] available[k] == encoding
                            &&& compression::same_kind(available[k], kind)
                            &&& forall|j: int|
                                0 <= j < k ==> !compression::same_kind(#[trigger] available[j], kind)
                        };
                    assert(is_first_match(entries, available, 0, k));
                },
                None => {},
            }
        },
        None => {},
    }
}

proof fn lemma_first_match(entries: Seq<Seq<u8>>, available: Seq<CompressionEncoding>)
    ensures
        match compression::first_choice(entries, available) {
            Some(encoding) => exists|i: int, k: int|
                {
                    &&& #[trigger] is_first_match(entries, available, i, k)
                    &&& available[k] == encoding
                },
            None => forall|i: int, k: int|
                0 <= i < entries.len() && 0 <= k < available.len() ==> !#[trigger] asks_for(
                    entries[i],
                    available[k],
                ),
        },
    decreases entries.len(),
{
    if entries.len() > 0 {
        lemma_entry(entries, available);
        if compression::entry_choice(entries[0], available) is None {
            let rest = entries.drop_first();
            lemma_first_match(rest, available);
            match compression::first_choice(rest, available) {
                Some(encoding) => {
                    let (i, k) = choose|i: int, k: int|
                        {
                            &&& #[trigger] is_first_match(rest, available, i, k)
                            &&& available[k] == encoding
                        };
                    assert(entries[i + 1] == rest[i]);
                    assert forall|h: int, j: int|
                        0 <= h < i + 1 && 0 <= j < available.len() implies !#[trigger] asks_for(
                        entries[h],
                        available[j],
                    ) by {
                        if h > 0 {
                            assert(entries[h] == rest[h - 1]);
                            assert(!asks_for(rest[h - 1], available[j]));
                        }
                    }
                    assert(is_first_match(entries, available, i + 1, k));
                },
                None => {
                    assert forall|i: int, k: int|
                        0 <= i < entries.len() && 0 <= k < available.len()
                        implies !#[trigger] asks_for(entries[i], available[k]) by {
                        if i > 0 {
                            assert(entries[i] == rest[i - 1]);
                            assert(!asks_for(rest[i - 1], available[k]));
                        }
                    }
                },
            }
        }
    }
}

/// The encoding picked by an accept list, for every list: the first entry between commas
/// that asks, with whatever blanks around it, for something that is available decides, and
/// the first available encoding that it asks for is picked. Nothing is picked exactly where
/// no entry asks for anything that is available.
pub proof fn law_first_match_is_picked(entries: Seq<Seq<u8>>, available: Seq<CompressionEncoding>)
    requires
        entries.len() > 0,
        forall|i: int| 0 <= i < entries.len() ==> !(#[trigger] entries[i]).contains(44),
    ensures
        match compression::accepted(text::joined(entries, 44), available) {
            Some(encoding) => exists|i: int, k: int|
                {
                    &&& #[trigger] is_first_match(entries, available, i, k)
                    &&& available[k] == encoding
                },
            None => forall|i: int, k: int|
                0 <= i < entries.len() && 0 <= k < available.len() ==> !#[trigger] asks_for(
                    entries[i],
                    available[k],
                ),
        },
{
    text::lemma_split_joined(entries, 44);
    lemma_first_match(entries, available);
}

/// The encodings that are known among those that the entries of a list mean.
pub open spec fn known(meant: Seq<Option<CompressionEncoding>>) -> Seq<CompressionEncoding>
    decreases meant.len(),
{
    if meant.len() == 0 {
        Seq::empty()
    } else {
        match meant[0] {
            Some(encoding) => seq![encoding] + known(meant.drop_first()),
            None => known(meant.drop_first()),
        }
    }
}

/// Whether an entry means an encoding, by its name with whatever blanks around it, or none,
/// by not being the name of one.
pub open spec fn entry_means(entry: Seq<u8>, meant: Option<CompressionEncoding>) -> bool {
    match meant {
        Some(encoding) => padded(entry, wire_name(encoding)),
        None => forall|encoding: CompressionEncoding| !#[trigger] padded(
            entry,
            wire_name(encoding),
        ),
    }
}

proof fn lemma_choice_of_meant(
    entries: Seq<Seq<u8>>,
    meant: Seq<Option<CompressionEncoding>>,
    available: Seq<CompressionEncoding>,
)
    requires
        entries.len() == meant.len(),
        forall|i: int| 0 <= i < entries.len() ==> #[trigger] entry_means(entries[i], meant[i]),
    ensures
        compression::first_choice(entries, available) == laws::negotiated(known(meant), available),
    decreases entries.len(),
{
    if entries.len() > 0 {
        let rest = entries.drop_first();
        let later = meant.drop_first();
        assert forall|i: int| 0 <= i < rest.len() implies #[trigger] entry_means(
            rest[i],
            later[i],
        ) by {
            assert(entry_means(entries[i + 1], meant[i + 1]));
        }
        lemma_choice_of_meant(rest, later, available);
        let entry = entries[0];
        assert(entry_means(entry, meant[0]));
        let gzip = CompressionEncoding::Gzip(None);
        let zlib = CompressionEncoding::Zlib(None);
        let zstd = CompressionEncoding::Zstd(None);
        lemma_asks_for(entry, gzip);
        lemma_asks_for(entry, zlib);
        lemma_asks_for(entry, zstd);
        match meant[0] {
            Some(encoding) => {
                let name = wire_name(encoding);
                law_names(encoding, encoding);
                compression::lemma_names(encoding);
                assert(is_bare(name)) by {
                    assert(seq![name[0]][0] == name[0]);
                    assert(seq![name[name.len() - 1]][0] == name[name.len() - 1]);
                }
                lemma_padded(entry, name);
                assert(is_bare(name));
                laws::lemma_own_entry(encoding, available);
                assert(text::trimmed(name) == name) by {
                    lemma_padded(name, name);
                    let none = Seq::<u8>::empty();
                    assert(name =~= none + name + none);
                }
                assert(compression::entry_choice(entry, available) == compression::entry_choice(
                    name,
                    available,
                ));
                laws::lemma_first_of_kind(available, encoding);
                assert(known(meant).drop_first() =~= known(later));
            },
            None => {
                assert(!padded(entry, wire_name(gzip)));
                assert(!padded(entry, wire_name(zlib)));
                assert(!padded(entry, wire_name(zstd)));
                assert(compression::entry_choice(entry, available) is None);
            },
        }
    }
}

/// An accept list is understood however it is spaced and whatever else it names: for every
/// list of entries between commas, each the name of an encoding with whatever blanks around
/// it or a text that is no such name, the pick is that for a peer that accepts the encodings
/// named, in their order.
pub proof fn law_padded_list_is_understood(
    entries: Seq<Seq<u8>>,
    meant: Seq<Option<CompressionEncoding>>,
    available: Seq<CompressionEncoding>,
)
    requires
        entries.len() > 0,
        entries.len() == meant.len(),
        forall|i: int| 0 <= i < entries.len() ==> !(#[trigger] entries[i]).contains(44),
        forall|i: int| 0 <= i < entries.len() ==> #[trigger] entry_means(entries[i], meant[i]),
    ensures
        compression::accepted(text::joined(entries, 44), available) == laws::negotiated(
            known(meant),
            available,
        ),
{
    text::lemma_split_joined(entries, 44);
    lemma_choice_of_meant(entries, meant, available);
}

/// For a peer that accepts the encodings `peer`, the first of them that compresses and of
/// which some available encoding is of the same kind decides, and the first available one of
/// that kind is taken. None is taken exactly where there is no such pair.
pub proof fn law_first_in_common_is_negotiated(
    peer: Seq<CompressionEncoding>,
    available: Seq<CompressionEncoding>,
)
    ensures
        match laws::negotiated(peer, available) {
            Some(encoding) => exists|i: int, k: int|
                {
                    &&& 0 <= i < peer.len()
                    &&& 0 <= k < available.len()
                    &&& #[trigger] alike(peer[i], available[k])
                    &&& !(peer[i] is Identity)
                    &&& available[k] == encoding
                    &&& forall|j: int| 0 <= j < k ==> !alike(peer[i], #[trigger] available[j])
                    &&& forall|h: int, j: int|
                        0 <= h < i && 0 <= j < available.len() && !(peer[h] is Identity)
                            ==> !#[trigger] alike(peer[h], available[j])
                },
            None => forall|i: int, k: int|
                0 <= i < peer.len() && 0 <= k < available.len() && !(peer[i] is Identity)
                    ==> !#[trigger] alike(peer[i], available[k]),
        },
    decreases peer.len(),
{
    if peer.len() > 0 {
        let rest = peer.drop_first();
        law_first_in_common_is_negotiated(rest, available);
        laws::lemma_first_of_kind(available, peer[0]);
        lemma_first_index(available, peer[0]);
        assert forall|k: int| 0 <= k < available.len() implies (compression::same_kind(
            #[trigger] available[k],
            peer[0],
        ) <==> alike(peer[0], available[k])) by {
            law_names(available[k], peer[0]);
        }
        if peer[0] is Identity || !compression::enabled(peer[0], available) {
            match laws::negotiated(rest, available) {
                Some(encoding) => {
                    let (i, k) = choose|i: int, k: int|
                        {
                            &&& 0 <= i < rest.len()
                            &&& 0 <= k < available.len()
                            &&& #[trigger] alike(rest[i], available[k])
                            &&& !(rest[i] is Identity)
                            &&& available[k] == encoding
                            &&& forall|j: int|
                                0 <= j < k ==> !alike(rest[i], #[trigger] available[j])
                            &&& forall|h: int, j: int|
                                0 <= h < i && 0 <= j < available.len() && !(rest[h] is Identity)
                                    ==> !#[trigger] alike(rest[h], available[j])
                        };
                    assert(peer[i + 1] == rest[i]);
                    assert forall|h: int, j: int|
                        0 <= h < i + 1 && 0 <= j < available.len() && !(peer[h] is Identity)
                        implies !#[trigger] alike(peer[h], available[j]) by {
                        if h > 0 {
                            assert(peer[h] == rest[h - 1]);
                            assert(!alike(rest[h - 1], available[j]));
                        }
                    }
                    assert(alike(peer[i + 1], available[k]));
                },
                None => {
                    assert forall|i: int, k: int|
                        0 <= i < peer.len() && 0 <= k < available.len() && !(peer[i] is Identity)
                        implies !#[trigger] alike(peer[i], available[k]) by {
                        if i > 0 {
                            assert(peer[i] == rest[i - 1]);
                            assert(!alike(rest[i - 1], available[k]));
                        }
                    }
                },
            }
        } else {
            let k = choose|k: int|
                {
                    &&& 0 <= k < available.len()
                    &&& #[trigger] available[k] == compression::first_of_kind(
                        available,
                        peer[0],
                    )->0
                    &&& compression::same_kind(available[k], peer[0])
                    &&& forall|j: int|
                        0 <= j < k ==> !compression::same_kind(#[trigger] available[j], peer[0])
                };
            assert(alike(peer[0], available[k]));
        }
    }
}

/// The accept list for some encodings: no octets for none, the name alone for one, and a
/// comma and the name for each further one.
pub proof fn law_composing(encodings: Seq<CompressionEncoding>, last: CompressionEncoding)
    ensures
        compression::composed(Seq::empty()) == Seq::<u8>::empty(),
        compression::composed(seq![last]) == wire_name(last),
        encodings.len() > 0 ==> compression::composed(encodings.push(last))
            == compression::composed(encodings) + seq![44u8] + wire_name(last),
{
    let name = encode_utf8(compression::encoding_name(last));
    law_names(last, last);
    assert(compression::name_pieces(Seq::empty()) =~= Seq::empty());
    assert(compression::name_pieces(seq![last]) =~= seq![name]);
    assert(compression::name_pieces(encodings.push(last)) =~= compression::name_pieces(
        encodings,
    ).push(name));
    law_joining(compression::name_pieces(encodings), name, 44);
}

/// What the header of a message says of its encoding, for every name: the name of a
/// compressing encoding stands for it exactly where one of its kind is enabled, `identity`
/// stands for no compression, and everything else is refused, also the name of an encoding
/// of which none is enabled.
pub proof fn law_announced_is_enabled(
    name: Seq<char>,
    encodings: Seq<CompressionEncoding>,
    encoding: CompressionEncoding,
)
    ensures
        compression::announced(name, encodings) == Some(Some(encoding)) ==> {
            &&& compression::enabled(encoding, encodings)
            &&& name == compression::encoding_name(encoding)
        },
        compression::announced(name, encodings) == Some(Some(encoding)) <==> {
            &&& encoding == CompressionEncoding::Gzip(None) || encoding
                == CompressionEncoding::Zlib(None) || encoding == CompressionEncoding::Zstd(None)
            &&& name == wire_text(encoding)
            &&& exists|i: int| 0 <= i < encodings.len() && alike(#[trigger] encodings[i], encoding)
        },
        compression::announced(name, encodings) == Some(None::<CompressionEncoding>) <==> name
            == seq!['i', 'd', 'e', 'n', 't', 'i', 't', 'y'],
        name == wire_text(encoding) && !(encoding is Identity) && !(exists|i: int|
            0 <= i < encodings.len() && alike(#[trigger] encodings[i], encoding))
            ==> compression::announced(name, encodings) is None,
        (forall|any: CompressionEncoding| name != #[trigger] wire_text(any))
            ==> compression::announced(name, encodings) is None,
{
    let gzip = CompressionEncoding::Gzip(None);
    let zlib = CompressionEncoding::Zlib(None);
    let zstd = CompressionEncoding::Zstd(None);
    let identity = CompressionEncoding::Identity;
    law_names(encoding, gzip);
    law_names(encoding, zlib);
    law_names(encoding, zstd);
    law_names(encoding, identity);
    law_names(gzip, zlib);
    law_names(zlib, zstd);
    law_names(zstd, identity);
    law_names(identity, gzip);
    law_names(gzip, zstd);
    law_names(zlib, identity);
    assert(wire_text(identity) == seq!['i', 'd', 'e', 'n', 't', 'i', 't', 'y']);
    lemma_enabled(gzip, encodings);
    lemma_enabled(zlib, encodings);
    lemma_enabled(zstd, encodings);
    lemma_enabled(encoding, encodings);
}

proof fn lemma_enabled(encoding: CompressionEncoding, encodings: Seq<CompressionEncoding>)
    ensures
        compression::enabled(encoding, encodings) <==> exists|i: int|
            0 <= i < encodings.len() && alike(#[trigger] encodings[i], encoding),
{
    if compression::enabled(encoding, encodings) {
        let i = choose|i: int|
            0 <= i < encodings.len() && compression::same_kind(#[trigger] encodings[i], encoding);
        law_names(encodings[i], encoding);
        assert(alike(encodings[i], encoding));
    }
    if exists|i: int| 0 <= i < encodings.len() && alike(#[trigger] encodings[i], encoding) {
        let i = choose|i: int|
            0 <= i < encodings.len() && alike(#[trigger] encodings[i], encoding);
        law_names(encodings[i], encoding);
        assert(compression::same_kind(encodings[i], encoding));
    }
}

/// The message of a refusal quotes the name that is not supported.
pub proof fn law_refusal_quotes_the_name(name: Seq<char>)
    ensures
        compression::unsupported_message(name) == "Content is compressed with `"@ + name
            + "` which isn't supported"@,
{
}

/// Whether `s` is made of the digits `0` to `9` alone.
pub open spec fn all_digits(s: Seq<u8>) -> bool {
    forall|i: int| 0 <= i < s.len() ==> 48 <= #[trigger] s[i] <= 57
}

/// The number that a run of digits writes: each digit counts the power of ten of its place.
pub open spec fn place_value(digits: Seq<u8>) -> int
    decreases digits.len(),
{
    if digits.len() == 0 {
        0
    } else {
        (digits[0] - 48) * pow(10, (digits.len() - 1) as nat) + place_value(digits.drop_first())
    }
}

/// Whether `s` writes the number `n`: with at least one digit, nothing but digits, and at
/// most a plus sign in front.
pub open spec fn writes(s: Seq<u8>, n: int) -> bool {
    let digits = if s.len() > 0 && s[0] == 43 {
        s.skip(1)
    } else {
        s
    };
    digits.len() > 0 && all_digits(digits) && place_value(digits) == n
}

/// One more digit at the end moves the others up by one place.
proof fn lemma_place_value_push(digits: Seq<u8>, last: u8)
    ensures
        place_value(digits.push(last)) == place_value(digits) * 10 + (last - 48),
    decreases digits.len(),
{
    let more = digits.push(last);
    reveal(pow);
    if digits.len() == 0 {
        assert(more.drop_first() =~= digits);
        assert(pow(10, 0) == 1);
        assert(more[0] == last);
        assert(place_value(more) == (last - 48) * pow(10, 0) + place_value(digits));
    } else {
        let n: nat = (digits.len() - 1) as nat;
        lemma_place_value_push(digits.drop_first(), last);
        assert(more.drop_first() =~= digits.drop_first().push(last));
        assert(pow(10, n + 1) == 10 * pow(10, n));
        let d: int = digits[0] - 48;
        let p: int = pow(10, n);
        assert(d * (10 * p) == (d * p) * 10) by (nonlinear_arith);
        assert(place_value(more) == d * pow(10, n + 1) + place_value(more.drop_first()));
    }
}

proof fn lemma_decimal_value(digits: Seq<u8>)
    requires
        all_digits(digits),
    ensures
        text::decimal_value(digits) == place_value(digits),
    decreases digits.len(),
{
    if digits.len() > 0 {
        let front = digits.drop_last();
        lemma_decimal_value(front);
        lemma_place_value_push(front, digits.last());
        assert(front.push(digits.last()) =~= digits);
    }
}

/// A number is read exactly where its digits are written, with at most a plus sign in front
/// and nothing else, and it is the number that they write.
pub proof fn law_number_is_read(s: Seq<u8>, n: usize)
    ensures
        text::parsed_usize(s) == Some(n) <==> writes(s, n as int),
{
    let digits = text::without_plus(s);
    assert(digits =~= if s.len() > 0 && s[0] == 43 {
        s.skip(1)
    } else {
        s
    });
    if all_digits(digits) {
        lemma_decimal_value(digits);
        assert(forall|i: int| 0 <= i < digits.len() ==> text::is_digit(#[trigger] digits[i]));
    } else {
        let i = choose|i: int| 0 <= i < digits.len() && !(48 <= #[trigger] digits[i] <= 57);
        assert(!text::is_digit(digits[i]));
    }
}

/// The decimal text of a number is made of digits, the first of which is no zero unless it
/// is the only one, and they write the number.
pub proof fn law_decimal_text_writes_the_number(n: nat)
    ensures
        text::decimal_text(n).len() > 0,
        forall|i: int|
            0 <= i < text::decimal_text(n).len() ==> '0' <= #[trigger] text::decimal_text(n)[i]
                <= '9',
        text::decimal_text(n).len() > 1 ==> text::decimal_text(n)[0] != '0',
        writes(encode_utf8(text::decimal_text(n)), n as int),
{
    let chars = text::decimal_text(n);
    laws::lemma_decimal_text(n);
    lemma_no_leading_zero(n);
    is_ascii_chars_encode_utf8(chars);
    let digits = encode_utf8(chars);
    assert(digits =~= chars.map_values(|c: char| c as u8));
    assert(all_digits(digits)) by {
        assert forall|i: int| 0 <= i < digits.len() implies 48 <= #[trigger] digits[i] <= 57 by {
            assert(digits[i] == chars[i] as u8);
        }
    }
    assert(48 <= digits[0] <= 57);
    lemma_decimal_value(digits);
}

proof fn lemma_no_leading_zero(n: nat)
    ensures
        n > 0 ==> text::decimal_text(n)[0] != '0',
        text::decimal_text(n).len() > 1 ==> n >= 10,
    decreases n,
{
    if n >= 10 {
        lemma_no_leading_zero(n / 10);
        laws::lemma_decimal_text(n / 10);
    }
}

/// Whether the first `content-length` of `headers` writes the number `n`.
pub open spec fn states(headers: HeaderMap, n: int) -> bool {
    let name = seq!['c', 'o', 'n', 't', 'e', 'n', 't', '-', 'l', 'e', 'n', 'g', 't', 'h'];
    header::fields(headers).dom().contains(name) && writes(header::fields(headers)[name][0], n)
}

/// The length taken from the headers is the number that their first `content-length` writes,
/// for every number that fits, and there is none where it writes no such number.
pub proof fn law_stated_length_is_the_number_written(headers: HeaderMap, n: usize)
    ensures
        body_limit::stated_length(headers) == Some(n) <==> states(headers, n as int),
{
    reveal_strlit("content-length");
    let name = seq!['c', 'o', 'n', 't', 'e', 'n', 't', '-', 'l', 'e', 'n', 'g', 't', 'h'];
    assert("content-length"@ =~= name);
    let value = header::fields(headers)[name][0];
    law_number_is_read(value, n);
    if writes(value, n as int) {
        let digits = if value.len() > 0 && value[0] == 43 {
            value.skip(1)
        } else {
            value
        };
        assert forall|i: int| 0 <= i < value.len() implies header::is_visible(
            #[trigger] value[i],
        ) by {
            if value[0] == 43 {
                if i > 0 {
                    assert(value[i] == digits[i - 1]);
                }
            } else {
                assert(value[i] == digits[i]);
            }
        }
    }
}

/// What becomes of a request, for every set of headers: it is rejected exactly where the
/// body announces more bytes than the limit or its first `content-length` writes a number
/// above the limit that fits a length, and else it is let through.
pub proof fn law_larger_requests_are_rejected(limit: usize, headers: HeaderMap, announced: u64)
    ensures
        body_limit::admission(
            limit,
            body_limit::taken_size(body_limit::stated_length(headers), announced),
        ) == (if announced > limit || exists|n: usize| n > limit && #[trigger] states(
            headers,
            n as int,
        ) {
            body_limit::Admission::Reject { status: 413 }
        } else {
            body_limit::Admission::Forward
        }),
{
    assert forall|n: usize| #[trigger] states(headers, n as int) <==> body_limit::stated_length(
        headers,
    ) == Some(n) by {
        law_stated_length_is_the_number_written(headers, n);
    }
    match body_limit::stated_length(headers) {
        Some(n) => {
            assert(states(headers, n as int));
        },
        None => {},
    }
}

/// A request that states its length in decimal is taken to state that length, whatever it
/// is, and is rejected exactly where that or what the body announces is above the limit.
pub proof fn law_decimal_length_is_stated(
    limit: usize,
    headers: HeaderMap,
    announced: u64,
    n: usize,
)
    requires
        header::fields(headers).dom().contains("content-length"@),
        header::fields(headers)["content-length"@][0] == encode_utf8(text::decimal_text(n as nat)),
    ensures
        body_limit::stated_length(headers) == Some(n),
        body_limit::admission(
            limit,
            body_limit::taken_size(body_limit::stated_length(headers), announced),
        ) == (if n > limit || announced > limit {
            body_limit::Admission::Reject { status: 413 }
        } else {
            body_limit::Admission::Forward
        }),
{
    reveal_strlit("content-length");
    let name = seq!['c', 'o', 'n', 't', 'e', 'n', 't', '-', 'l', 'e', 'n', 'g', 't', 'h'];
    assert("content-length"@ =~= name);
    law_decimal_text_writes_the_number(n as nat);
    law_stated_length_is_the_number_written(headers, n);
}

/// The value that is looked at is the first given under the name in question, and there is
/// one exactly where the name is there.
pub proof fn law_first_value_counts(headers: HeaderMap, name: Seq<char>, value: Seq<u8>)
    ensures
        header::first_value(headers, name) == Some(value) <==> header::fields(
            headers,
        ).dom().contains(name) && header::fields(headers)[name][0] == value,
{
}

/// Whether the first value that `headers` hold under `name` is `value`.
pub open spec fn carries(headers: HeaderMap, name: Seq<char>, value: Seq<u8>) -> bool {
    header::fields(headers).dom().contains(name) && header::fields(headers)[name][0] == value
}

/// Whether every octet is a printable one of ASCII, a space or a tab.
pub open spec fn is_text(s: Seq<u8>) -> bool {
    forall|i: int| 0 <= i < s.len() ==> #[trigger] s[i] == 9 || 32 <= s[i] <= 126
}

/// For every peer, the pick goes by the first accept list in its headers, and is one only
/// where encodings are configured and the list is text: of the entries between its commas,
/// the first that asks for something configured decides.
pub proof fn law_headers_decide_the_pick(
    headers: HeaderMap,
    config: Option<Vec<CompressionEncoding>>,
    entries: Seq<Seq<u8>>,
)
    requires
        entries.len() > 0,
        forall|i: int| 0 <= i < entries.len() ==> !(#[trigger] entries[i]).contains(44),
    ensures
        config is Some && carries(
            headers,
            "grpc-accept-encoding"@,
            text::joined(entries, 44),
        ) && is_text(text::joined(entries, 44)) ==> match compression::picked_for(headers, config) {
            Some(encoding) => exists|i: int, k: int|
                {
                    &&& #[trigger] is_first_match(entries, config->0@, i, k)
                    &&& config->0@[k] == encoding
                },
            None => forall|i: int, k: int|
                0 <= i < entries.len() && 0 <= k < config->0@.len() ==> !#[trigger] asks_for(
                    entries[i],
                    config->0@[k],
                ),
        },
        carries(headers, "grpc-accept-encoding"@, text::joined(entries, 44)) && !is_text(
            text::joined(entries, 44),
        ) ==> compression::picked_for(headers, config) is None,
        config is None ==> compression::picked_for(headers, config) is None,
        !header::fields(headers).dom().contains("grpc-accept-encoding"@)
            ==> compression::picked_for(headers, config) is None,
{
    lemma_text(text::joined(entries, 44));
    if config is Some {
        law_first_match_is_picked(entries, config->0@);
    }
}

proof fn lemma_text(s: Seq<u8>)
    ensures
        header::all_visible(s) <==> is_text(s),
{
    if header::all_visible(s) {
        assert forall|i: int| 0 <= i < s.len() implies #[trigger] s[i] == 9 || 32 <= s[i]
            <= 126 by {
            assert(header::is_visible(s[i]));
        }
    }
}

proof fn lemma_text_is_utf8(s: Seq<u8>)
    requires
        is_text(s),
    ensures
        encode_utf8(decode_utf8(s)) == s,
{
    let chars = s.map_values(|octet: u8| octet as char);
    assert(is_ascii_chars(chars));
    is_ascii_chars_encode_utf8(chars);
    assert forall|i: int| 0 <= i < s.len() implies encode_utf8(chars)[i] == #[trigger] s[i] by {
        assert(encode_utf8(chars)[i] == chars[i] as u8);
    }
    assert(encode_utf8(chars) =~= s);
    encode_utf8_decode_utf8(chars);
}

/// For every message, its encoding goes by the first value of the field in its headers: what
/// is no text is refused as such, a text as what it names, and a message is not compressed
/// where the field is missing or no encoding is configured.
pub proof fn law_headers_decide_the_encoding(
    headers: HeaderMap,
    config: Option<Vec<CompressionEncoding>>,
    value: Seq<u8>,
    result: Result<Option<CompressionEncoding>, Status>,
)
    requires
        compression::is_read_from(headers, config, result),
    ensures
        config is None ==> result == Ok::<Option<CompressionEncoding>, Status>(None),
        !header::fields(headers).dom().contains("grpc-encoding"@) ==> result == Ok::<
            Option<CompressionEncoding>,
            Status,
        >(None),
        config is Some && carries(headers, "grpc-encoding"@, value) ==> {
            &&& result == Err::<Option<CompressionEncoding>, Status>(Status::InvalidHeader)
                <==> !is_text(value)
            &&& result matches Err(Status::Unimplemented { message }) ==> message@
                == "Content is compressed with `"@ + decode_utf8(value)
                + "` which isn't supported"@
            &&& result matches Ok(Some(encoding)) ==> value == wire_name(encoding) && exists|i: int|
                0 <= i < config->0@.len() && alike(#[trigger] config->0@[i], encoding)
            &&& result == Ok::<Option<CompressionEncoding>, Status>(None) <==> value == wire_name(
                CompressionEncoding::Identity,
            )
            &&& forall|i: int|
                0 <= i < config->0@.len() && !(config->0@[i] is Identity) && value == wire_name(
                    #[trigger] config->0@[i],
                ) ==> (result matches Ok(Some(encoding)) && alike(encoding, config->0@[i])
                    && !compression::is_configured(encoding))
        },
{
    lemma_text(value);
    if config is Some && carries(headers, "grpc-encoding"@, value) {
        let encodings = config->0@;
        let name = decode_utf8(value);
        let identity = CompressionEncoding::Identity;
        if is_text(value) {
            assert(encode_utf8(name) == value) by {
                lemma_text_is_utf8(value);
            }
        }
        assert forall|encoding: CompressionEncoding| is_text(value) implies (#[trigger] wire_name(
            encoding,
        ) == value <==> wire_text(encoding) == name) by {
            law_names(encoding, encoding);
            encode_utf8_decode_utf8(wire_text(encoding));
        }
        assert forall|encoding: CompressionEncoding| is_text(#[trigger] wire_name(encoding)) by {
            law_names(encoding, encoding);
            compression::lemma_names(encoding);
        }
        law_announced_is_enabled(name, encodings, identity);
        match result {
            Ok(Some(encoding)) => {
                law_announced_is_enabled(name, encodings, encoding);
            },
            _ => {},
        }
        assert forall|i: int|
            0 <= i < encodings.len() && !(encodings[i] is Identity) && value == wire_name(
                #[trigger] encodings[i],
            ) implies (result matches Ok(Some(encoding)) && alike(encoding, encodings[i])
            && !compression::is_configured(encoding)) by {
            let kind = match encodings[i] {
                CompressionEncoding::Gzip(_) => CompressionEncoding::Gzip(None),
                CompressionEncoding::Zlib(_) => CompressionEncoding::Zlib(None),
                _ => CompressionEncoding::Zstd(None),
            };
            law_announced_is_enabled(name, encodings, kind);
            assert(alike(encodings[i], kind));
            assert(wire_name(encodings[i]) == value);
            assert(wire_text(encodings[i]) == name);
            assert(compression::announced(name, encodings) == Some(Some(kind)));
        }
    }
}

} // verus!
