//! Images that are sent to the client.
use vstd::prelude::*;

use crate::encoding::{base64_bytes, base64_encode, base64_text, law_base64_is_read_back};
use crate::json::{
    distinct_keys, filled, filled_to, lemma_entries_held, member, ordered, Json, JsonView,
};

verus! {

/// Whether certain bytes stand at a place.
pub open spec fn has_at(bytes: Seq<u8>, place: int, expected: Seq<u8>) -> bool {
    place + expected.len() <= bytes.len() && bytes.subrange(place, place + expected.len())
        == expected
}

/// Whether the bytes start as a PNG file does.
pub open spec fn is_png(bytes: Seq<u8>) -> bool {
    has_at(bytes, 0, seq![0x89u8, 0x50, 0x4e, 0x47, 0x0d, 0x0a, 0x1a, 0x0a])
}

/// Whether the bytes start as a JPEG file does.
pub open spec fn is_jpeg(bytes: Seq<u8>) -> bool {
    has_at(bytes, 0, seq![0xffu8, 0xd8, 0xff])
}

/// Whether the bytes start with `GIF87a` or `GIF89a`.
pub open spec fn is_gif(bytes: Seq<u8>) -> bool {
    has_at(bytes, 0, seq![0x47u8, 0x49, 0x46, 0x38, 0x37, 0x61]) || has_at(
        bytes,
        0,
        seq![0x47u8, 0x49, 0x46, 0x38, 0x39, 0x61],
    )
}

/// Whether the bytes start with `RIFF`, and `WEBP` after the length.
pub open spec fn is_webp(bytes: Seq<u8>) -> bool {
    has_at(bytes, 0, seq![0x52u8, 0x49, 0x46, 0x46]) && has_at(
        bytes,
        8,
        seq![0x57u8, 0x45, 0x42, 0x50],
    )
}

/// Whether the bytes start with `BM`.
pub open spec fn is_bmp(bytes: Seq<u8>) -> bool {
    has_at(bytes, 0, seq![0x42u8, 0x4d])
}

/// Whether the bytes start as a TIFF file does, of either byte order.
pub open spec fn is_tiff(bytes: Seq<u8>) -> bool {
    has_at(bytes, 0, seq![0x49u8, 0x49, 0x2a, 0x00]) || has_at(
        bytes,
        0,
        seq![0x4du8, 0x4d, 0x00, 0x2a],
    )
}

/// Whether `ftyp` follows the first four bytes, and `avif` or `avis` follows that.
pub open spec fn is_avif(bytes: Seq<u8>) -> bool {
    has_at(bytes, 4, seq![0x66u8, 0x74, 0x79, 0x70]) && (has_at(
        bytes,
        8,
        seq![0x61u8, 0x76, 0x69, 0x66],
    ) || has_at(bytes, 8, seq![0x61u8, 0x76, 0x69, 0x73]))
}

/// The type of the image that bytes hold, as their start shows it.
pub open spec fn type_of_image(bytes: Seq<u8>) -> Option<Seq<char>> {
    if is_png(bytes) {
        Some("image/png"@)
    } else if is_jpeg(bytes) {
        Some("image/jpeg"@)
    } else if is_gif(bytes) {
        Some("image/gif"@)
    } else if is_webp(bytes) {
        Some("image/webp"@)
    } else if is_bmp(bytes) {
        Some("image/bmp"@)
    } else if is_tiff(bytes) {
        Some("image/tiff"@)
    } else if is_avif(bytes) {
        Some("image/avif"@)
    } else {
        None
    }
}

fn stands_at(bytes: &[u8], place: usize, expected: &[u8]) -> (stands: bool)
    requires
        place + expected@.len() <= usize::MAX,
    ensures
        stands == has_at(bytes@, place as int, expected@),
{
    if bytes.len() < place + expected.len() {
        return false;
    }
    let mut index: usize = 0;
    while index < expected.len()
        invariant
            index <= expected@.len(),
            place + expected@.len() <= bytes@.len() <= usize::MAX,
            forall|i: int| 0 <= i < index ==> bytes@[place + i] == expected@[i],
        decreases expected@.len() - index,
    {
        if bytes[place + index] != expected[index] {
            proof {
                let here = bytes@.subrange(place as int, place + expected@.len());
                assert(here[index as int] == bytes@[place + index]);
            }
            return false;
        }
        index = index + 1;
    }
    proof {
        assert(bytes@.subrange(place as int, place + expected@.len()) =~= expected@);
    }
    true
}

/// The type of the image that bytes hold, as their start shows it; nothing where it is none of the
/// known types.
pub fn image_mime_type(bytes: &[u8]) -> (mime_type: Option<&'static str>)
    ensures
        match mime_type {
            Some(name) => type_of_image(bytes@) == Some(name@),
            None => type_of_image(bytes@) is None,
        },
{
    let png: [u8; 8] = [0x89, 0x50, 0x4e, 0x47, 0x0d, 0x0a, 0x1a, 0x0a];
    let jpeg: [u8; 3] = [0xff, 0xd8, 0xff];
    let gif_87: [u8; 6] = [0x47, 0x49, 0x46, 0x38, 0x37, 0x61];
    let gif_89: [u8; 6] = [0x47, 0x49, 0x46, 0x38, 0x39, 0x61];
    let riff: [u8; 4] = [0x52, 0x49, 0x46, 0x46];
    let webp: [u8; 4] = [0x57, 0x45, 0x42, 0x50];
    let bmp: [u8; 2] = [0x42, 0x4d];
    let tiff_little: [u8; 4] = [0x49, 0x49, 0x2a, 0x00];
    let tiff_big: [u8; 4] = [0x4d, 0x4d, 0x00, 0x2a];
    let ftyp: [u8; 4] = [0x66, 0x74, 0x79, 0x70];
    let avif: [u8; 4] = [0x61, 0x76, 0x69, 0x66];
    let avis: [u8; 4] = [0x61, 0x76, 0x69, 0x73];
    proof {
        assert(png@ =~= seq![0x89u8, 0x50, 0x4e, 0x47, 0x0d, 0x0a, 0x1a, 0x0a]);
        assert(jpeg@ =~= seq![0xffu8, 0xd8, 0xff]);
        assert(gif_87@ =~= seq![0x47u8, 0x49, 0x46, 0x38, 0x37, 0x61]);
        assert(gif_89@ =~= seq![0x47u8, 0x49, 0x46, 0x38, 0x39, 0x61]);
        assert(riff@ =~= seq![0x52u8, 0x49, 0x46, 0x46]);
        assert(webp@ =~= seq![0x57u8, 0x45, 0x42, 0x50]);
        assert(bmp@ =~= seq![0x42u8, 0x4d]);
        assert(tiff_little@ =~= seq![0x49u8, 0x49, 0x2a, 0x00]);
        assert(tiff_big@ =~= seq![0x4du8, 0x4d, 0x00, 0x2a]);
        assert(ftyp@ =~= seq![0x66u8, 0x74, 0x79, 0x70]);
        assert(avif@ =~= seq![0x61u8, 0x76, 0x69, 0x66]);
        assert(avis@ =~= seq![0x61u8, 0x76, 0x69, 0x73]);
    }
    if stands_at(bytes, 0, png.as_slice()) {
        Some("image/png")
    } else if stands_at(bytes, 0, jpeg.as_slice()) {
        Some("image/jpeg")
    } else if stands_at(bytes, 0, gif_87.as_slice()) || stands_at(bytes, 0, gif_89.as_slice()) {
        Some("image/gif")
    } else if stands_at(bytes, 0, riff.as_slice()) && stands_at(bytes, 8, webp.as_slice()) {
        Some("image/webp")
    } else if stands_at(bytes, 0, bmp.as_slice()) {
        Some("image/bmp")
    } else if stands_at(bytes, 0, tiff_little.as_slice()) || stands_at(
        bytes,
        0,
        tiff_big.as_slice(),
    ) {
        Some("image/tiff")
    } else if stands_at(bytes, 4, ftyp.as_slice()) && (stands_at(bytes, 8, avif.as_slice())
        || stands_at(bytes, 8, avis.as_slice())) {
        Some("image/avif")
    } else {
        None
    }
}

/// An answer that is an image.
pub open spec fn image_answer(bytes: Seq<u8>, mime_type: Seq<char>) -> JsonView {
    JsonView::object().with("content"@, JsonView::list().item(
        JsonView::object()
            .with("type"@, JsonView::Text("image"@))
            .with("data"@, JsonView::Text(base64_text(bytes)))
            .with("mimeType"@, JsonView::Text(mime_type)),
    ))
}

/// The answer with the image that a file holds; or what is wrong with it, where it holds none of a
/// known type.
pub fn get_image(path: &str, bytes: &[u8]) -> (result: Result<Json, String>)
    requires
        bytes@.len() <= usize::MAX / 2,
    ensures
        match type_of_image(bytes@) {
            Some(mime_type) => result matches Ok(json) && json@ == image_answer(bytes@, mime_type)
                && ordered(json@),
            None => result matches Err(message) && message@ == "unsupported image format: "@
                + path@,
        },
{
    match image_mime_type(bytes) {
        Some(mime_type) => {
            let image: Json = Json::object()
                .with("type", Json::text("image"))
                .with("data", Json::Text(base64_encode(bytes)))
                .with("mimeType", Json::text(mime_type));
            Ok(Json::object().with("content", Json::list().item(image)))
        },
        None => {
            let mut message: String = "unsupported image format: ".to_owned();
            message.append(path);
            Err(message)
        },
    }
}

/// The type of an image is told by how its bytes begin, and by nothing else: bytes that begin otherwise are of
/// no type.
pub proof fn law_images_are_known_by_their_beginnings(bytes: Seq<u8>)
    ensures
        ({
            let b = |i: int| bytes[i] as int;
            let png = bytes.len() >= 8 && b(0) == 137 && b(1) == 80 && b(2) == 78 && b(3) == 71 && b(4)
                == 13 && b(5) == 10 && b(6) == 26 && b(7) == 10;
            let jpeg = bytes.len() >= 3 && b(0) == 255 && b(1) == 216 && b(2) == 255;
            let gif = bytes.len() >= 6 && b(0) == 71 && b(1) == 73 && b(2) == 70 && b(3) == 56 && (b(4)
                == 55 || b(4) == 57) && b(5) == 97;
            let webp = bytes.len() >= 12 && b(0) == 82 && b(1) == 73 && b(2) == 70 && b(3) == 70 && b(8)
                == 87 && b(9) == 69 && b(10) == 66 && b(11) == 80;
            let bmp = bytes.len() >= 2 && b(0) == 66 && b(1) == 77;
            let tiff = bytes.len() >= 4 && ((b(0) == 73 && b(1) == 73 && b(2) == 42 && b(3) == 0) || (b(0)
                == 77 && b(1) == 77 && b(2) == 0 && b(3) == 42));
            let avif = bytes.len() >= 12 && b(4) == 102 && b(5) == 116 && b(6) == 121 && b(7) == 112
                && b(8) == 97 && b(9) == 118 && b(10) == 105 && (b(11) == 102 || b(11) == 115);
            &&& png ==> type_of_image(bytes) == Some("image/png"@)
            &&& jpeg ==> type_of_image(bytes) == Some("image/jpeg"@)
            &&& gif ==> type_of_image(bytes) == Some("image/gif"@)
            &&& webp ==> type_of_image(bytes) == Some("image/webp"@)
            &&& bmp && !avif ==> type_of_image(bytes) == Some("image/bmp"@)
            &&& tiff && !avif ==> type_of_image(bytes) == Some("image/tiff"@)
            &&& avif && !bmp && !tiff && !jpeg && !gif && !webp ==> type_of_image(bytes) == Some(
                "image/avif"@,
            )
            &&& !png && !jpeg && !gif && !webp && !bmp && !tiff && !avif ==> type_of_image(bytes) is None
        }),
{
    lemma_has_eight(bytes, 0, seq![0x89u8, 0x50, 0x4e, 0x47, 0x0d, 0x0a, 0x1a, 0x0a]);
    lemma_has_three(bytes, 0, seq![0xffu8, 0xd8, 0xff]);
    lemma_has_six(bytes, 0, seq![0x47u8, 0x49, 0x46, 0x38, 0x37, 0x61]);
    lemma_has_six(bytes, 0, seq![0x47u8, 0x49, 0x46, 0x38, 0x39, 0x61]);
    lemma_has_four(bytes, 0, seq![0x52u8, 0x49, 0x46, 0x46]);
    lemma_has_four(bytes, 8, seq![0x57u8, 0x45, 0x42, 0x50]);
    lemma_has_two(bytes, 0, seq![0x42u8, 0x4d]);
    lemma_has_four(bytes, 0, seq![0x49u8, 0x49, 0x2a, 0x00]);
    lemma_has_four(bytes, 0, seq![0x4du8, 0x4d, 0x00, 0x2a]);
    lemma_has_four(bytes, 4, seq![0x66u8, 0x74, 0x79, 0x70]);
    lemma_has_four(bytes, 8, seq![0x61u8, 0x76, 0x69, 0x66]);
    lemma_has_four(bytes, 8, seq![0x61u8, 0x76, 0x69, 0x73]);
}

proof fn lemma_has_at(bytes: Seq<u8>, place: int, expected: Seq<u8>)
    requires
        0 <= place,
    ensures
        has_at(bytes, place, expected) <==> place + expected.len() <= bytes.len() && forall|i: int|
            0 <= i < expected.len() ==> bytes[place + i] == #[trigger] expected[i],
{
    if place + expected.len() <= bytes.len() {
        let part = bytes.subrange(place, place + expected.len());
        if forall|i: int| 0 <= i < expected.len() ==> bytes[place + i] == #[trigger] expected[i] {
            assert(part =~= expected);
        }
        if part == expected {
            assert forall|i: int| 0 <= i < expected.len() implies bytes[place + i]
                == #[trigger] expected[i] by {
                assert(part[i] == bytes[place + i]);
            }
        }
    }
}

proof fn lemma_has_two(bytes: Seq<u8>, place: int, expected: Seq<u8>)
    requires
        0 <= place,
        expected.len() == 2,
    ensures
        has_at(bytes, place, expected) <==> place + 2 <= bytes.len() && bytes[place + 0] == expected[0] && bytes[place + 1] == expected[1],
{
    lemma_has_at(bytes, place, expected);
    if place + 2 <= bytes.len() && bytes[place + 0] == expected[0] && bytes[place + 1] == expected[1] {
        assert forall|i: int| 0 <= i < expected.len() implies bytes[place + i]
            == #[trigger] expected[i] by {
            assert(i == 0 || i == 1);
        }
    }
}

proof fn lemma_has_three(bytes: Seq<u8>, place: int, expected: Seq<u8>)
    requires
        0 <= place,
        expected.len() == 3,
    ensures
        has_at(bytes, place, expected) <==> place + 3 <= bytes.len() && bytes[place + 0] == expected[0] && bytes[place + 1] == expected[1] && bytes[place + 2] == expected[2],
{
    lemma_has_at(bytes, place, expected);
    if place + 3 <= bytes.len() && bytes[place + 0] == expected[0] && bytes[place + 1] == expected[1] && bytes[place + 2] == expected[2] {
        assert forall|i: int| 0 <= i < expected.len() implies bytes[place + i]
            == #[trigger] expected[i] by {
            assert(i == 0 || i == 1 || i == 2);
        }
    }
}

proof fn lemma_has_four(bytes: Seq<u8>, place: int, expected: Seq<u8>)
    requires
        0 <= place,
        expected.len() == 4,
    ensures
        has_at(bytes, place, expected) <==> place + 4 <= bytes.len() && bytes[place + 0] == expected[0] && bytes[place + 1] == expected[1] && bytes[place + 2] == expected[2] && bytes[place + 3] == expected[3],
{
    lemma_has_at(bytes, place, expected);
    if place + 4 <= bytes.len() && bytes[place + 0] == expected[0] && bytes[place + 1] == expected[1] && bytes[place + 2] == expected[2] && bytes[place + 3] == expected[3] {
        assert forall|i: int| 0 <= i < expected.len() implies bytes[place + i]
            == #[trigger] expected[i] by {
            assert(i == 0 || i == 1 || i == 2 || i == 3);
        }
    }
}

proof fn lemma_has_six(bytes: Seq<u8>, place: int, expected: Seq<u8>)
    requires
        0 <= place,
        expected.len() == 6,
    ensures
        has_at(bytes, place, expected) <==> place + 6 <= bytes.len() && bytes[place + 0] == expected[0] && bytes[place + 1] == expected[1] && bytes[place + 2] == expected[2] && bytes[place + 3] == expected[3] && bytes[place + 4] == expected[4] && bytes[place + 5] == expected[5],
{
    lemma_has_at(bytes, place, expected);
    if place + 6 <= bytes.len() && bytes[place + 0] == expected[0] && bytes[place + 1] == expected[1] && bytes[place + 2] == expected[2] && bytes[place + 3] == expected[3] && bytes[place + 4] == expected[4] && bytes[place + 5] == expected[5] {
        assert forall|i: int| 0 <= i < expected.len() implies bytes[place + i]
            == #[trigger] expected[i] by {
            assert(i == 0 || i == 1 || i == 2 || i == 3 || i == 4 || i == 5);
        }
    }
}

proof fn lemma_has_eight(bytes: Seq<u8>, place: int, expected: Seq<u8>)
    requires
        0 <= place,
        expected.len() == 8,
    ensures
        has_at(bytes, place, expected) <==> place + 8 <= bytes.len() && bytes[place + 0] == expected[0] && bytes[place + 1] == expected[1] && bytes[place + 2] == expected[2] && bytes[place + 3] == expected[3] && bytes[place + 4] == expected[4] && bytes[place + 5] == expected[5] && bytes[place + 6] == expected[6] && bytes[place + 7] == expected[7],
{
    lemma_has_at(bytes, place, expected);
    if place + 8 <= bytes.len() && bytes[place + 0] == expected[0] && bytes[place + 1] == expected[1] && bytes[place + 2] == expected[2] && bytes[place + 3] == expected[3] && bytes[place + 4] == expected[4] && bytes[place + 5] == expected[5] && bytes[place + 6] == expected[6] && bytes[place + 7] == expected[7] {
        assert forall|i: int| 0 <= i < expected.len() implies bytes[place + i]
            == #[trigger] expected[i] by {
            assert(i == 0 || i == 1 || i == 2 || i == 3 || i == 4 || i == 5 || i == 6 || i == 7);
        }
    }
}

/// An answer that is an image holds its bytes and names its type.
pub proof fn law_images_are_sent_whole(bytes: Seq<u8>, mime_type: Seq<char>)
    ensures
        member(image_answer(bytes, mime_type), "content"@) matches Some(JsonView::Array(items))
            && items.len() == 1 && member(items[0], "type"@) == Some(JsonView::Text("image"@)) && member(
            items[0],
            "mimeType"@,
        ) == Some(JsonView::Text(mime_type)) && (member(items[0], "data"@) matches Some(
            JsonView::Text(data),
        ) && base64_bytes(data) == bytes),
{
    let item = seq![
        ("type"@, JsonView::Text("image"@)),
        ("data"@, JsonView::Text(base64_text(bytes))),
        ("mimeType"@, JsonView::Text(mime_type)),
    ];
    let answer = seq![("content"@, JsonView::list().item(filled(item)))];
    reveal_strlit("type");
    reveal_strlit("data");
    reveal_strlit("mimeType");
    assert("type"@[0] == 't' && "data"@[0] == 'd');
    assert(distinct_keys(item));
    assert(distinct_keys(answer));
    lemma_entries_held(item);
    lemma_entries_held(answer);
    reveal_with_fuel(filled_to, 4);
    assert(filled(answer) == image_answer(bytes, mime_type));
    assert(item[0].0 == "type"@ && item[1].0 == "data"@ && item[2].0 == "mimeType"@);
    assert(answer[0].0 == "content"@);
    law_base64_is_read_back(bytes);
}

} // verus!
