use crate::app_state::{composite_key, QuickCache};
use crate::cubs_model::ModelData;
use crate::json::{json_read, read_document};
use crate::model_error::ModelError;
use crate::model_json::{model_read, ModelView};
use crate::text::{signed_decimal, signed_text};
use flate2::bufread::GzDecoder;
use std::io::Read;
use std::sync::Arc;
use vstd::prelude::*;

verus! {

/// `std::io::Error`: why reading gave up.
#[verifier::external_type_specification]
#[verifier::external_body]
pub struct ExIoError(std::io::Error);

/// What `flate2::bufread::GzDecoder` reads out of gzipped bytes as text;
/// `None` where it reads none.
pub uninterp spec fn gunzipped(gzip: Seq<u8>) -> Option<Seq<char>>;

/// The model that stored bytes hold: they are unzipped to a text, the text
/// is read as a JSON document, and the document as a model.
pub open spec fn model_stored(gzip: Seq<u8>) -> Option<ModelView> {
    match gunzipped(gzip) {
        Some(text) => match json_read(text) {
            Some(document) => model_read(document),
            None => None,
        },
        None => None,
    }
}

/// The key under which the cache of models holds the model `model_id` in
/// the version `version_num`.
pub open spec fn model_key(model_id: Seq<char>, version_num: i32) -> Seq<char> {
    composite_key(model_id, signed_decimal(version_num as int))
}

/// `GzDecoder::new` on the bytes, and `read_to_string` on the decoder: the
/// text that the bytes hold.
#[verifier::external_body]
fn decompress_gzip_to_string(gzip: &Vec<u8>) -> (text: Result<String, std::io::Error>)
    ensures
        match text {
            Ok(unzipped) => gunzipped(gzip@) == Some(unzipped@),
            Err(_) => gunzipped(gzip@) is None,
        },
{
    let mut decoder = GzDecoder::new(gzip.as_slice());
    let mut decompressed_data = String::new();
    decoder.read_to_string(&mut decompressed_data)?;
    Ok(decompressed_data)
}

/// The model that stored bytes hold.
pub fn read_model(gzip: &Vec<u8>) -> (model: Result<ModelData, ModelError>)
    ensures
        match model_stored(gzip@) {
            Some(stored) => model matches Ok(read) && read@ == stored,
            None => model matches Err(ModelError::UnableToReadModel),
        },
{
    let text = match decompress_gzip_to_string(gzip) {
        Ok(text) => text,
        Err(_) => {
            return Err(ModelError::UnableToReadModel);
        },
    };
    let document = match read_document(text.as_str()) {
        Ok(document) => document,
        Err(_) => {
            return Err(ModelError::UnableToReadModel);
        },
    };
    match ModelData::from_value(&document) {
        Some(model) => Ok(model),
        None => Err(ModelError::UnableToReadModel),
    }
}

/// The version `version_num` as the caches write it.
pub fn version_text(version_num: i32) -> (text: String)
    ensures
        text@ == signed_decimal(version_num as int),
{
    signed_text(version_num as i64)
}

/// The model that was found in the cache or loaded, or the error that
/// says which model in which version was not found.
pub fn model_or_not_found(loaded: Option<Arc<ModelData>>, model_id: &str, version_number: i32) -> (model: Result<
    Arc<ModelData>,
    ModelError,
>)
    ensures
        match loaded {
            Some(m) => model == Ok::<Arc<ModelData>, ModelError>(m),
            None => model matches Err(ModelError::ModelNotFound(id, version)) && id@ == model_id@ && version@
                == signed_decimal(version_number as int),
        },
{
    match loaded {
        Some(model) => Ok(model),
        None => Err(ModelError::ModelNotFound(model_id.to_owned(), version_text(version_number))),
    }
}

/// The model `model_id` in the version `version_num`, if the cache holds
/// it: it is looked up under `model_key(model_id, version_num)`.
pub fn get_model_from_cache(cache: &QuickCache<ModelData>, model_id: &String, version_num: i32) -> Option<
    Arc<ModelData>,
> {
    let version = version_text(version_num);
    cache.get_ref(model_id.as_str(), version.as_str())
}

} // verus!
