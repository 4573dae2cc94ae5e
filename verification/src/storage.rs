use vstd::prelude::*;

use crate::models::MediaPayload;
use crate::text::{
    chars_of, last_segment, last_segment_exec, law_last_segment_longest, owned, string_of,
};

verus! {

broadcast use vstd::string::group_string_axioms;

/// How long, in seconds, the whole of rendering and storing may take.
pub const STORAGE_TIMEOUT_SECS: u64 = 45;

/// How long, in seconds, a signed URL to a stored PDF stays valid.
pub const PRESIGN_SECS: u64 = 3600;

/// The report on a PDF of `file_size` bytes stored under `object_name` in
/// `bucket_name` and readable at `url`.
pub fn media_payload(object_name: String, file_size: usize, url: String, bucket_name: String) -> (res:
    MediaPayload)
    ensures
        res.file_name@ == last_segment(object_name@, '/'),
        res.file_size == file_size as i64,
        res.file_type@ == "application/pdf"@,
        res.storage_key@ == object_name@,
        res.url@ == url@,
        res.bucket_name@ == bucket_name@,
        res.status@ == "success"@,
        res.progress == 100,
{
    let name = last_segment_exec(&chars_of(object_name.as_str()), '/');
    MediaPayload {
        file_name: string_of(&name),
        file_size: file_size as i64,
        file_type: owned("application/pdf"),
        storage_key: object_name,
        url,
        bucket_name,
        status: owned("success"),
        progress: 100,
    }
}

/// The file name of a report is everything after the last `/` of its key:
/// it holds no `/`, ends the key, and is the whole key or stands right after
/// a `/`.
pub proof fn law_file_name_is_last_segment(key: Seq<char>)
    ensures
        !last_segment(key, '/').contains('/'),
        key.len() >= last_segment(key, '/').len(),
        key.skip(key.len() - last_segment(key, '/').len()) == last_segment(key, '/'),
        last_segment(key, '/').len() == key.len() || key[key.len() - last_segment(key, '/').len() - 1]
            == '/',
{
    law_last_segment_longest(key, '/');
}

} // verus!
