//! The image manifest: one config descriptor and an ordered sequence of
//! layer descriptors, decoded from the registry's JSON body.

use vstd::prelude::*;

use crate::err::Fault;
use crate::json::json_as_array;
use crate::json::json_as_str;
use crate::json::json_as_u64;
use crate::json::json_doc_of;
use crate::json::json_get;
use crate::json::json_parse;
use crate::json::value_view;
use crate::json::value_views;
use crate::json::JsonView;

verus! {

/// The manifest's configuration descriptor.
#[derive(Debug)]
pub struct Config {
    media_type: String,
    size: u64,
    digest: String,
}

/// One layer descriptor: its declared byte length and the digest under
/// which the blob is requested.
#[derive(Debug)]
pub struct Layer {
    media_type: String,
    size: u64,
    digest: String,
}

/// One image variant: schema version, media type, config descriptor, and
/// the layers in application order (lowest first).
#[derive(Debug)]
pub struct Manifest {
    schema_version: u64,
    media_type: String,
    config: Config,
    layers: Vec<Layer>,
}

pub struct ConfigView {
    pub media_type: Seq<char>,
    pub size: u64,
    pub digest: Seq<char>,
}

pub struct LayerView {
    pub media_type: Seq<char>,
    pub size: u64,
    pub digest: Seq<char>,
}

pub struct ManifestView {
    pub schema_version: u64,
    pub media_type: Seq<char>,
    pub config: ConfigView,
    pub layers: Seq<LayerView>,
}

impl View for Config {
    type V = ConfigView;

    closed spec fn view(&self) -> ConfigView {
        ConfigView { media_type: self.media_type@, size: self.size, digest: self.digest@ }
    }
}

impl View for Layer {
    type V = LayerView;

    closed spec fn view(&self) -> LayerView {
        LayerView { media_type: self.media_type@, size: self.size, digest: self.digest@ }
    }
}

/// The mathematical values of a sequence of layers.
pub open spec fn layer_views(s: Seq<Layer>) -> Seq<LayerView> {
    s.map_values(|l: Layer| l@)
}

impl View for Manifest {
    type V = ManifestView;

    closed spec fn view(&self) -> ManifestView {
        ManifestView {
            schema_version: self.schema_version,
            media_type: self.media_type@,
            config: self.config@,
            layers: layer_views(self.layers@),
        }
    }
}

impl Config {
    pub fn media_type(&self) -> (r: &str)
        ensures
            r@ == self@.media_type,
    {
        self.media_type.as_str()
    }

    pub fn size(&self) -> (r: u64)
        ensures
            r == self@.size,
    {
        self.size
    }

    pub fn digest(&self) -> (r: &str)
        ensures
            r@ == self@.digest,
    {
        self.digest.as_str()
    }
}

impl Layer {
    pub fn media_type(&self) -> (r: &str)
        ensures
            r@ == self@.media_type,
    {
        self.media_type.as_str()
    }

    pub fn size(&self) -> (r: u64)
        ensures
            r == self@.size,
    {
        self.size
    }

    pub fn digest(&self) -> (r: &str)
        ensures
            r@ == self@.digest,
    {
        self.digest.as_str()
    }
}

impl Manifest {
    pub fn schema_version(&self) -> (r: u64)
        ensures
            r == self@.schema_version,
    {
        self.schema_version
    }

    pub fn media_type(&self) -> (r: &str)
        ensures
            r@ == self@.media_type,
    {
        self.media_type.as_str()
    }

    pub fn config(&self) -> (r: &Config)
        ensures
            r@ == self@.config,
    {
        &self.config
    }

    pub fn layer_count(&self) -> (r: usize)
        ensures
            r == self@.layers.len(),
    {
        self.layers.len()
    }

    pub fn layer(&self, i: usize) -> (r: &Layer)
        requires
            i < self@.layers.len(),
        ensures
            r@ == self@.layers[i as int],
    {
        proof {
            assert(self@.layers[i as int] == self.layers@[i as int]@);
        }
        &self.layers[i]
    }
}

/// The blob descriptor a JSON node describes: media type, declared size
/// and digest, or nothing when a field is missing or of the wrong kind.
pub open spec fn blob_ref_of(j: JsonView) -> Option<(Seq<char>, u64, Seq<char>)> {
    if j is Obj {
        let m = j->Obj_0;
        if m.contains_key("mediaType"@) && m["mediaType"@] is Str && m.contains_key("size"@)
            && m["size"@] is Num && m["size"@]->Num_0 is Some && m.contains_key("digest"@)
            && m["digest"@] is Str {
            Some((m["mediaType"@]->Str_0, m["size"@]->Num_0->Some_0, m["digest"@]->Str_0))
        } else {
            None
        }
    } else {
        None
    }
}

/// The layer descriptors a JSON array describes, in listed order, or
/// nothing when any element is no blob descriptor.
pub open spec fn layers_of(vals: Seq<JsonView>) -> Option<Seq<LayerView>>
    decreases vals.len(),
{
    if vals.len() == 0 {
        Some(Seq::empty())
    } else {
        match blob_ref_of(vals[0]) {
            Option::None => None,
            Option::Some(t) => match layers_of(vals.skip(1)) {
                Option::None => None,
                Option::Some(rest) => Some(
                    seq![LayerView { media_type: t.0, size: t.1, digest: t.2 }] + rest,
                ),
            },
        }
    }
}

/// The manifest a JSON document describes under the v2 shape, or nothing
/// when the document does not fit it.
pub open spec fn manifest_of_doc(doc: JsonView) -> Option<ManifestView> {
    if doc is Obj {
        let m = doc->Obj_0;
        if m.contains_key("schemaVersion"@) && m["schemaVersion"@] is Num
            && m["schemaVersion"@]->Num_0 is Some && m.contains_key("mediaType"@)
            && m["mediaType"@] is Str && m.contains_key("config"@) && blob_ref_of(
            m["config"@],
        ) is Some && m.contains_key("layers"@) && m["layers"@] is Arr && layers_of(
            m["layers"@]->Arr_0,
        ) is Some {
            let c = blob_ref_of(m["config"@])->Some_0;
            Some(
                ManifestView {
                    schema_version: m["schemaVersion"@]->Num_0->Some_0,
                    media_type: m["mediaType"@]->Str_0,
                    config: ConfigView { media_type: c.0, size: c.1, digest: c.2 },
                    layers: layers_of(m["layers"@]->Arr_0)->Some_0,
                },
            )
        } else {
            None
        }
    } else {
        None
    }
}

/// The manifest a response body describes: the body must parse as JSON and
/// fit the v2 manifest shape.
pub open spec fn manifest_of(s: Seq<char>) -> Option<ManifestView> {
    match json_doc_of(s) {
        Option::None => None,
        Option::Some(doc) => manifest_of_doc(doc),
    }
}

fn decode_blob_ref(v: &serde_json::Value) -> (r: Option<(String, u64, String)>)
    ensures
        match r {
            Option::Some(parts) => blob_ref_of(value_view(*v)) == Some(
                (parts.0@, parts.1, parts.2@),
            ),
            Option::None => blob_ref_of(value_view(*v)) is None,
        },
{
    let media_type: String = match json_get(v, "mediaType") {
        Option::Some(x) => match json_as_str(x) {
            Option::Some(s) => s.to_owned(),
            Option::None => {
                return None;
            },
        },
        Option::None => {
            return None;
        },
    };
    let size: u64 = match json_get(v, "size") {
        Option::Some(x) => match json_as_u64(x) {
            Option::Some(n) => n,
            Option::None => {
                return None;
            },
        },
        Option::None => {
            return None;
        },
    };
    let digest: String = match json_get(v, "digest") {
        Option::Some(x) => match json_as_str(x) {
            Option::Some(s) => s.to_owned(),
            Option::None => {
                return None;
            },
        },
        Option::None => {
            return None;
        },
    };
    Some((media_type, size, digest))
}

/// Decodes a manifest body into the manifest shape: returns exactly the
/// manifest the body describes, and [`Fault::DecodeError`] exactly when the
/// body is no valid JSON or does not fit the shape.
pub fn decode_manifest(body: &str) -> (r: Result<Manifest, Fault>)
    ensures
        match manifest_of(body@) {
            Option::None => r is Err && r->Err_0 == Fault::DecodeError,
            Option::Some(m) => r is Ok && r->Ok_0@ == m,
        },
{
    let root = match json_parse(body) {
        Result::Ok(v) => v,
        Result::Err(_) => {
            return Err(Fault::DecodeError);
        },
    };
    let ghost doc = value_view(root);
    let schema_version: u64 = match json_get(&root, "schemaVersion") {
        Option::Some(x) => match json_as_u64(x) {
            Option::Some(n) => n,
            Option::None => {
                return Err(Fault::DecodeError);
            },
        },
        Option::None => {
            return Err(Fault::DecodeError);
        },
    };
    let media_type: String = match json_get(&root, "mediaType") {
        Option::Some(x) => match json_as_str(x) {
            Option::Some(s) => s.to_owned(),
            Option::None => {
                return Err(Fault::DecodeError);
            },
        },
        Option::None => {
            return Err(Fault::DecodeError);
        },
    };
    let config: Config = match json_get(&root, "config") {
        Option::Some(c) => match decode_blob_ref(c) {
            Option::Some(parts) => Config { media_type: parts.0, size: parts.1, digest: parts.2 },
            Option::None => {
                return Err(Fault::DecodeError);
            },
        },
        Option::None => {
            return Err(Fault::DecodeError);
        },
    };
    let layer_values = match json_get(&root, "layers") {
        Option::Some(l) => match json_as_array(l) {
            Option::Some(a) => a,
            Option::None => {
                return Err(Fault::DecodeError);
            },
        },
        Option::None => {
            return Err(Fault::DecodeError);
        },
    };
    let ghost avs = value_views(layer_values@);
    let mut layers: Vec<Layer> = Vec::new();
    let mut i: usize = 0;
    proof {
        assert(avs.skip(0) =~= avs);
        assert(layer_views(layers@) =~= Seq::<LayerView>::empty());
        if layers_of(avs) is Some {
            assert(layer_views(layers@) + layers_of(avs)->Some_0 =~= layers_of(avs)->Some_0);
        }
    }
    while i < layer_values.len()
        invariant
            i <= layer_values@.len(),
            avs == value_views(layer_values@),
            json_doc_of(body@) == Some(doc),
            doc is Obj,
            doc->Obj_0.contains_key("schemaVersion"@),
            doc->Obj_0["schemaVersion"@] is Num,
            doc->Obj_0["schemaVersion"@]->Num_0 == Some(schema_version),
            doc->Obj_0.contains_key("mediaType"@),
            doc->Obj_0["mediaType"@] is Str,
            media_type@ == doc->Obj_0["mediaType"@]->Str_0,
            doc->Obj_0.contains_key("config"@),
            blob_ref_of(doc->Obj_0["config"@]) == Some(
                (config@.media_type, config@.size, config@.digest),
            ),
            doc->Obj_0.contains_key("layers"@),
            doc->Obj_0["layers"@] is Arr,
            doc->Obj_0["layers"@]->Arr_0 == avs,
            layers_of(avs) == (match layers_of(avs.skip(i as int)) {
                Option::None => None::<Seq<LayerView>>,
                Option::Some(rest) => Some(layer_views(layers@) + rest),
            }),
        decreases layer_values@.len() - i,
    {
        proof {
            assert(avs[i as int] == value_view(layer_values@[i as int]));
            assert(avs.skip(i as int)[0] == avs[i as int]);
            assert(avs.skip(i as int).skip(1) =~= avs.skip(i as int + 1));
        }
        let ghost l0 = layer_views(layers@);
        match decode_blob_ref(&layer_values[i]) {
            Option::Some(parts) => {
                layers.push(Layer { media_type: parts.0, size: parts.1, digest: parts.2 });
                proof {
                    assert(layer_views(layers@) =~= l0.push(
                        LayerView {
                            media_type: parts.0@,
                            size: parts.1,
                            digest: parts.2@,
                        },
                    ));
                    if layers_of(avs.skip(i as int + 1)) is Some {
                        assert(l0 + (seq![
                            LayerView { media_type: parts.0@, size: parts.1, digest: parts.2@ },
                        ] + layers_of(avs.skip(i as int + 1))->Some_0) =~= layer_views(layers@)
                            + layers_of(avs.skip(i as int + 1))->Some_0);
                    }
                }
            },
            Option::None => {
                return Err(Fault::DecodeError);
            },
        }
        i = i + 1;
    }
    proof {
        assert(avs.skip(layer_values@.len() as int) =~= Seq::<JsonView>::empty());
        if layers_of(avs) is Some {
            assert(layer_views(layers@) + Seq::<LayerView>::empty() =~= layer_views(layers@));
        }
    }
    Ok(Manifest { schema_version, media_type, config, layers })
}

} // verus!
