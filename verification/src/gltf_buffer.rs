//! Deciding where glTF buffer data (meshes, textures) goes: inline in the
//! glTF JSON as a `data:` URL, into a sidecar file, or nowhere.
//!
//! This module computes the buffer entity and, when a sidecar file is
//! called for, its name and contents; actually writing files is left to the
//! caller that owns the output directory.

use base64::Engine;
use vstd::prelude::*;
use vstd::string::StringExecFns;

verus! {

/// The base64 encoding (standard alphabet, unpadded) of a byte sequence,
/// as `base64::engine::general_purpose::STANDARD_NO_PAD` produces it.
pub uninterp spec fn base64_no_pad(bytes: Seq<u8>) -> Seq<char>;

/// Relies on `base64::engine::general_purpose::STANDARD_NO_PAD`, whose
/// `encode` renders the bytes in the standard base64 alphabet without
/// padding; the result depends on the bytes alone.
#[verifier::external_body]
fn base64_encode(bytes: &Vec<u8>) -> (r: String)
    ensures
        r@ == base64_no_pad(bytes@),
        bytes@.len() == 0 ==> r@.len() == 0,
{
    base64::engine::general_purpose::STANDARD_NO_PAD.encode(bytes)
}

/// Relies on the std `format!` macro to render the limit in decimal within
/// the fixed error message.
#[verifier::external_body]
fn format_no_destination(limit: usize) -> String {
    format!("no destination was provided for glTF buffers > {limit} bytes")
}

/// A glTF buffer entity: the byte length, entity name, and the URI under
/// which the data is reachable (`None` when the data was discarded).
#[derive(Debug, PartialEq, Eq)]
pub struct GltfBuffer {
    /// Length of the buffer data in bytes.
    pub byte_length: u32,
    /// Name of the buffer entity.
    pub name: Option<String>,
    /// Where the data lives: a `data:` URL, a relative file name, or
    /// nothing at all.
    pub uri: Option<String>,
}

/// A sidecar file the caller must write next to the glTF file.
#[derive(Debug, PartialEq, Eq)]
pub struct GltfBufferFile {
    /// File name, which is also the relative URL stored in the buffer
    /// entity.
    pub relative_name: String,
    /// The bytes to write.
    pub contents: Vec<u8>,
}

/// Failure to place buffer data anywhere.
#[derive(Debug, PartialEq, Eq)]
pub enum GltfWriteError {
    /// The data was longer than the inline limit and no file base name was
    /// provided.
    NoDestination {
        /// The inline limit that was exceeded.
        limit: usize,
    },
}

impl GltfWriteError {
    /// A human-readable description of the failure.
    pub fn message(&self) -> String {
        match self {
            GltfWriteError::NoDestination { limit } => format_no_destination(*limit),
        }
    }
}

/// Designates the location where glTF buffer data should be put: inline in
/// the glTF JSON, in sidecar files named after a base name, or discarded.
#[derive(Debug, PartialEq, Eq)]
pub struct GltfDataDestination {
    /// If true, all data is unconditionally discarded. For testing only.
    discard: bool,
    /// Buffers no longer than this are inlined as `data:` URLs.
    maximum_inline_length: usize,
    /// Base name (the glTF file's name with its extension already removed)
    /// for sidecar data files. If absent, over-limit buffers are an error.
    file_base_name: Option<String>,
}

impl GltfDataDestination {
    pub closed spec fn discard_spec(self) -> bool {
        self.discard
    }

    pub closed spec fn limit_spec(self) -> int {
        self.maximum_inline_length as int
    }

    pub closed spec fn base_name_spec(self) -> Option<String> {
        self.file_base_name
    }

    /// A destination that discards all data. For testing only.
    pub fn null() -> (d: GltfDataDestination)
        ensures
            d.discard_spec(),
            d.limit_spec() == 0,
            d.base_name_spec() is None,
    {
        GltfDataDestination { discard: true, maximum_inline_length: 0, file_base_name: None }
    }

    /// A destination that inlines buffers up to `maximum_inline_length`
    /// bytes and puts longer ones into files named after `file_base_name`
    /// (or fails if that is absent).
    pub fn new(file_base_name: Option<String>, maximum_inline_length: usize) -> (d:
        GltfDataDestination)
        ensures
            !d.discard_spec(),
            d.limit_spec() == maximum_inline_length,
            d.base_name_spec() == file_base_name,
    {
        GltfDataDestination { discard: false, maximum_inline_length, file_base_name }
    }

    /// Place one buffer's data and return the buffer entity to embed in the
    /// glTF JSON, together with the sidecar file to write, if one is
    /// needed. `file_suffix` distinguishes the sidecar files of one export.
    pub fn write(&self, buffer_entity_name: String, file_suffix: &str, contents: Vec<u8>) -> (r:
        Result<(GltfBuffer, Option<GltfBufferFile>), GltfWriteError>)
        requires
            contents@.len() <= u32::MAX,
        ensures
            self.discard_spec() ==> (r matches Ok(out) && {
                &&& out.0.byte_length == contents@.len()
                &&& out.0.name matches Some(n) && n@ == buffer_entity_name@
                &&& out.0.uri is None
                &&& out.1 is None
            }),
            !self.discard_spec() && contents@.len() <= self.limit_spec() ==> (r matches Ok(out)
                && {
                &&& out.0.byte_length == contents@.len()
                &&& out.0.name matches Some(n) && n@ == buffer_entity_name@
                &&& out.0.uri matches Some(u) && u@ == "data:application/gltf-buffer;base64,"@
                    + base64_no_pad(contents@)
                &&& out.1 is None
            }),
            !self.discard_spec() && contents@.len() > self.limit_spec() && self.base_name_spec()
                is None ==> (r matches Err(e) && (e matches GltfWriteError::NoDestination {
                limit,
            } && limit == self.limit_spec())),
            !self.discard_spec() && contents@.len() > self.limit_spec() && self.base_name_spec()
                is Some ==> (r matches Ok(out) && {
                &&& out.0.byte_length == contents@.len()
                &&& out.0.name matches Some(n) && n@ == buffer_entity_name@
                &&& out.0.uri matches Some(u) && u@ == (self.base_name_spec()->Some_0)@ + "-"@
                    + file_suffix@ + ".glbin"@
                &&& out.1 matches Some(f) && f.relative_name@ == (self.base_name_spec()->Some_0)@
                    + "-"@ + file_suffix@ + ".glbin"@ && f.contents@ == contents@
            }),
    {
        let byte_length: u32 = contents.len() as u32;
        if self.discard {
            return Ok(
                (GltfBuffer { byte_length, name: Some(buffer_entity_name), uri: None }, None),
            );
        }
        if contents.len() <= self.maximum_inline_length {
            let encoded = base64_encode(&contents);
            let mut url = String::from_str("data:application/gltf-buffer;base64,");
            url.append(encoded.as_str());
            return Ok(
                (
                    GltfBuffer { byte_length, name: Some(buffer_entity_name), uri: Some(url) },
                    None,
                ),
            );
        }
        match &self.file_base_name {
            None => Err(GltfWriteError::NoDestination { limit: self.maximum_inline_length }),
            Some(base) => {
                let mut relative_name = base.clone();
                relative_name.append("-");
                relative_name.append(file_suffix);
                relative_name.append(".glbin");
                let relative_name_again = relative_name.clone();
                proof {
                    assert(relative_name@ =~= base@ + "-"@ + file_suffix@ + ".glbin"@);
                }
                Ok(
                    (
                        GltfBuffer {
                            byte_length,
                            name: Some(buffer_entity_name),
                            uri: Some(relative_name),
                        },
                        Some(GltfBufferFile { relative_name: relative_name_again, contents }),
                    ),
                )
            },
        }
    }
}

} // verus!
