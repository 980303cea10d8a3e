use vstd::prelude::*;

verus! {

use crate::chunk::Chunk;
use crate::chunk::ChunkView;
use crate::chunk_type::ChunkType;
use crate::chunk_type::is_upper_byte;
use crate::chunk_type::spec_text_code;
use crate::error::PngError;
use crate::png::Png;
use crate::png::chunk_views;
use crate::png::spec_first_match;
use crate::png::spec_no_match;
use crate::png::spec_parse_png;
use crate::png::spec_serialize_png;
use vstd::string::StrSliceExecFns;
use vstd::string::StringSliceAdditionalSpecFns;
use vstd::utf8::decode_utf8;
use vstd::utf8::valid_utf8;

/// Parses a container from `bytes`, inserts a record carrying `chunk_type`
/// and the UTF-8 bytes of `chunk_data` just before the trailer record, and
/// returns the rendering of the result, which is again a valid container.
pub fn encode(bytes: &[u8], chunk_type: &str, chunk_data: &str) -> (r: Result<Vec<u8>, PngError>)
    requires
        chunk_data.spec_bytes().len() <= u32::MAX,
    ensures
        match r {
            Ok(out) => {
                &&& spec_parse_png(bytes@) is Ok
                &&& spec_text_code(chunk_type@) is Some
                &&& out@ == spec_serialize_png(
                    spec_parse_png(bytes@).unwrap().insert(
                        spec_parse_png(bytes@).unwrap().len() - 1,
                        (ChunkView {
                            type_code: spec_text_code(chunk_type@).unwrap(),
                            data: chunk_data.spec_bytes(),
                        }),
                    ),
                )
            },
            Err(e) => {
                ||| spec_parse_png(bytes@) == Err::<Seq<ChunkView>, _>(e)
                ||| (spec_parse_png(bytes@) is Ok && spec_text_code(chunk_type@) is None && e
                    == PngError::MalformedTypeCode)
            },
        },
{
    let mut png = match Png::parse(bytes) {
        Ok(p) => p,
        Err(e) => {
            return Err(e);
        },
    };
    let tc = match ChunkType::from_text(chunk_type) {
        Ok(t) => t,
        Err(e) => {
            return Err(e);
        },
    };
    let data = chunk_data.as_bytes_vec();
    let chunk = Chunk::new(tc, data);
    proof {
        assert(png@.len() > 0);
    }
    png.insert_before_trailer(chunk);
    Ok(png.as_bytes())
}

/// Parses a container from `bytes` and returns, as text, the data of the
/// first record carrying `chunk_type`.
pub fn decode(bytes: &[u8], chunk_type: &str) -> (r: Result<String, PngError>)
    ensures
        match r {
            Ok(s) => {
                &&& spec_parse_png(bytes@) is Ok
                &&& spec_text_code(chunk_type@) is Some
                &&& exists|i: int|
                    {
                        &&& #[trigger] spec_first_match(
                            spec_parse_png(bytes@).unwrap(),
                            spec_text_code(chunk_type@).unwrap(),
                            i,
                        )
                        &&& valid_utf8(spec_parse_png(bytes@).unwrap()[i].data)
                        &&& s@ == decode_utf8(spec_parse_png(bytes@).unwrap()[i].data)
                    }
            },
            Err(e) => {
                ||| spec_parse_png(bytes@) == Err::<Seq<ChunkView>, _>(e)
                ||| (spec_parse_png(bytes@) is Ok && spec_no_match(
                    spec_parse_png(bytes@).unwrap(),
                    chunk_type@,
                ) && e == PngError::NotFound)
                ||| (spec_parse_png(bytes@) is Ok && e == PngError::EncodingError && exists|i: int|
                    {
                        &&& #[trigger] spec_first_match(
                            spec_parse_png(bytes@).unwrap(),
                            spec_text_code(chunk_type@).unwrap(),
                            i,
                        )
                        &&& !valid_utf8(spec_parse_png(bytes@).unwrap()[i].data)
                    })
            },
        },
{
    let png = match Png::parse(bytes) {
        Ok(p) => p,
        Err(e) => {
            return Err(e);
        },
    };
    let found = match png.chunk_by_type(chunk_type) {
        Some(c) => c,
        None => {
            return Err(PngError::NotFound);
        },
    };
    let ghost code = spec_text_code(chunk_type@).unwrap();
    let ghost i = choose|i: int|
        #[trigger] spec_first_match(png@, code, i) && *found == png.chunks@[i];
    proof {
        assert(spec_first_match(png@, code, i) && *found == png.chunks@[i]);
        assert(found@ == png@[i]);
    }
    match found.data_as_string() {
        Ok(s) => {
            proof {
                assert(exists|j: int|
                    {
                        &&& #[trigger] spec_first_match(
                            spec_parse_png(bytes@).unwrap(),
                            spec_text_code(chunk_type@).unwrap(),
                            j,
                        )
                        &&& valid_utf8(spec_parse_png(bytes@).unwrap()[j].data)
                        &&& s@ == decode_utf8(spec_parse_png(bytes@).unwrap()[j].data)
                    });
            }
            Ok(s)
        },
        Err(e) => {
            proof {
                assert(exists|j: int|
                    {
                        &&& #[trigger] spec_first_match(
                            spec_parse_png(bytes@).unwrap(),
                            spec_text_code(chunk_type@).unwrap(),
                            j,
                        )
                        &&& !valid_utf8(spec_parse_png(bytes@).unwrap()[j].data)
                    });
            }
            Err(e)
        },
    }
}

/// Checks a textual code: accepted iff it is exactly 4 ASCII letters whose
/// third byte is uppercase, so that the reserved bit of the code holds.
pub fn validate(chunk_type: &str) -> (r: Result<(), PngError>)
    ensures
        match r {
            Ok(_) => spec_text_code(chunk_type@) is Some && is_upper_byte(
                spec_text_code(chunk_type@).unwrap()[2],
            ),
            Err(e) => {
                &&& e == PngError::MalformedTypeCode
                &&& !(spec_text_code(chunk_type@) is Some && is_upper_byte(
                    spec_text_code(chunk_type@).unwrap()[2],
                ))
            },
        },
{
    let t = match ChunkType::from_text(chunk_type) {
        Ok(t) => t,
        Err(e) => {
            return Err(e);
        },
    };
    if t.is_valid() {
        Ok(())
    } else {
        Err(PngError::MalformedTypeCode)
    }
}

/// Parses a container from `bytes` and hands out its records, in order.
pub fn get_chunks(bytes: &[u8]) -> (r: Result<Vec<Chunk>, PngError>)
    ensures
        match r {
            Ok(v) => {
                &&& spec_parse_png(bytes@) == Ok::<_, PngError>(chunk_views(v@))
                &&& forall|i: int| 0 <= i < v@.len() ==> (#[trigger] v@[i]).wf()
            },
            Err(e) => spec_parse_png(bytes@) == Err::<Seq<ChunkView>, _>(e),
        },
{
    let png = match Png::parse(bytes) {
        Ok(p) => p,
        Err(e) => {
            return Err(e);
        },
    };
    let Png { chunks } = png;
    Ok(chunks)
}

/// Parses a container from `bytes`, removes the first record carrying
/// `chunk_type`, and returns the rendering of what is left.
pub fn remove_chunk(bytes: &[u8], chunk_type: &str) -> (r: Result<Vec<u8>, PngError>)
    ensures
        match r {
            Ok(out) => {
                &&& spec_parse_png(bytes@) is Ok
                &&& spec_text_code(chunk_type@) is Some
                &&& exists|i: int|
                    {
                        &&& #[trigger] spec_first_match(
                            spec_parse_png(bytes@).unwrap(),
                            spec_text_code(chunk_type@).unwrap(),
                            i,
                        )
                        &&& out@ == spec_serialize_png(spec_parse_png(bytes@).unwrap().remove(i))
                    }
            },
            Err(e) => {
                ||| spec_parse_png(bytes@) == Err::<Seq<ChunkView>, _>(e)
                ||| (spec_parse_png(bytes@) is Ok && spec_no_match(
                    spec_parse_png(bytes@).unwrap(),
                    chunk_type@,
                ) && e == PngError::NotFound)
            },
        },
{
    let mut png = match Png::parse(bytes) {
        Ok(p) => p,
        Err(e) => {
            return Err(e);
        },
    };
    let ghost parsed = png@;
    match png.remove_chunk(chunk_type) {
        Ok(_) => (),
        Err(e) => {
            return Err(e);
        },
    }
    let out = png.as_bytes();
    proof {
        let code = spec_text_code(chunk_type@).unwrap();
        let i = choose|i: int| #[trigger] spec_first_match(parsed, code, i) && png@ == parsed.remove(i);
        assert(spec_first_match(parsed, code, i) && png@ == parsed.remove(i));
        assert(exists|j: int|
            {
                &&& #[trigger] spec_first_match(
                    spec_parse_png(bytes@).unwrap(),
                    spec_text_code(chunk_type@).unwrap(),
                    j,
                )
                &&& out@ == spec_serialize_png(spec_parse_png(bytes@).unwrap().remove(j))
            });
    }
    Ok(out)
}

} // verus!
