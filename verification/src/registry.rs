//! The registry session: image-reference parsing, endpoint and scope
//! construction, authentication state, the fetched manifest, and the
//! sequential download-and-apply of the image layers.

use vstd::prelude::*;
use vstd::string::StrSliceExecFns;
use vstd::string::StringExecFns;

use crate::err::Fault;
use crate::json::json_as_str;
use crate::json::json_doc_of;
use crate::json::json_get;
use crate::json::json_parse;
use crate::json::value_view;
use crate::manifest::decode_manifest;
use crate::manifest::manifest_of;
use crate::manifest::LayerView;
use crate::manifest::Manifest;
use crate::manifest::ManifestView;
use crate::paths::path_is_safe;
use crate::sandbox::FsNodeView;
use crate::sandbox::SandboxRoot;
use crate::unpack::unpack;
use crate::unpack::unpack_step;

verus! {

/// The index of the first `:` at or after `i`, if any.
pub open spec fn first_colon(s: Seq<char>, i: int) -> Option<int>
    decreases s.len() - i,
{
    if i < 0 || i >= s.len() {
        None
    } else if s[i] == ':' {
        Some(i)
    } else {
        first_colon(s, i + 1)
    }
}

/// An image reference splits at its first `:` into a repository name and a
/// tag, both non-empty.
pub open spec fn parse_image_ref(s: Seq<char>) -> Option<(Seq<char>, Seq<char>)> {
    match first_colon(s, 0) {
        Option::None => None,
        Option::Some(i) => if 0 < i && i + 1 < s.len() {
            Some((s.subrange(0, i), s.subrange(i + 1, s.len() as int)))
        } else {
            None
        },
    }
}

/// The bearer token an authentication response body holds: the body must
/// parse as a JSON object with a string under the "token" key.
pub open spec fn token_of(s: Seq<char>) -> Option<Seq<char>> {
    match json_doc_of(s) {
        Option::None => None,
        Option::Some(doc) => if doc is Obj && doc->Obj_0.contains_key("token"@)
            && doc->Obj_0["token"@] is Str {
            Some(doc->Obj_0["token"@]->Str_0)
        } else {
            None
        },
    }
}

/// One fetched blob, as the surrounding program hands it back: whether the
/// transport call succeeded with a success status, and the body bytes.
pub struct BlobResponse {
    pub success: bool,
    pub bytes: Vec<u8>,
}

impl View for BlobResponse {
    type V = (bool, Seq<u8>);

    open spec fn view(&self) -> (bool, Seq<u8>) {
        (self.success, self.bytes@)
    }
}

/// The mathematical values of a sequence of blob responses.
pub open spec fn blob_views(s: Seq<BlobResponse>) -> Seq<(bool, Seq<u8>)> {
    s.map_values(|b: BlobResponse| b@)
}

/// What handling one layer response does to the root map: a non-success
/// response is a registry failure, a body whose length differs from the
/// declared layer size is an integrity failure, and otherwise the blob is
/// unpacked onto the root.
pub open spec fn layer_step(
    m: Map<Seq<u8>, FsNodeView>,
    size: u64,
    success: bool,
    bytes: Seq<u8>,
) -> Result<Map<Seq<u8>, FsNodeView>, Fault> {
    if !success {
        Err(Fault::RegistryRequestError)
    } else if bytes.len() != size {
        Err(Fault::IntegrityError)
    } else {
        unpack_step(m, bytes)
    }
}

/// Folding `layer_step` over the layers in listed order: the map after the
/// layers that applied, and the first failure, if any.
pub open spec fn run_layers(
    m: Map<Seq<u8>, FsNodeView>,
    layers: Seq<LayerView>,
    resps: Seq<(bool, Seq<u8>)>,
) -> (Map<Seq<u8>, FsNodeView>, Option<Fault>)
    decreases layers.len(),
{
    if layers.len() == 0 || resps.len() == 0 {
        (m, None)
    } else {
        match layer_step(m, layers[0].size, resps[0].0, resps[0].1) {
            Result::Err(e) => (m, Some(e)),
            Result::Ok(m2) => run_layers(m2, layers.skip(1), resps.skip(1)),
        }
    }
}

/// The mathematical value of a [`Registry`] session.
pub struct RegistryView {
    pub image_name: Seq<char>,
    pub image_tag: Seq<char>,
    pub token: Option<Seq<char>>,
    pub manifest: Option<ManifestView>,
}

/// One registry session: the parsed image reference, then the token once
/// authentication succeeded, then the manifest once fetched.
pub struct Registry {
    image_name: String,
    image_tag: String,
    token: Option<String>,
    manifest: Option<Manifest>,
}

impl View for Registry {
    type V = RegistryView;

    closed spec fn view(&self) -> RegistryView {
        RegistryView {
            image_name: self.image_name@,
            image_tag: self.image_tag@,
            token: match self.token {
                Option::Some(ref t) => Some(t@),
                Option::None => None,
            },
            manifest: match self.manifest {
                Option::Some(ref m) => Some(m@),
                Option::None => None,
            },
        }
    }
}

/// The service name the token request is scoped to.
pub fn service() -> (r: &'static str)
    ensures
        r@ == "registry.docker.io"@,
{
    "registry.docker.io"
}

/// The authentication endpoint.
pub fn auth_url() -> (r: &'static str)
    ensures
        r@ == "https://auth.docker.io/token"@,
{
    "https://auth.docker.io/token"
}

/// The registry API root.
pub fn registry_api_url() -> (r: &'static str)
    ensures
        r@ == "https://registry-1.docker.io/v2"@,
{
    "https://registry-1.docker.io/v2"
}

/// The accept header selecting the v2 manifest media type.
pub fn manifest_accept() -> (r: &'static str)
    ensures
        r@ == "application/vnd.docker.distribution.manifest.v2+json"@,
{
    "application/vnd.docker.distribution.manifest.v2+json"
}

impl Registry {
    /// Parses `repository:tag` and opens a session; `None` when the
    /// reference has no separator or an empty repository or tag.
    pub fn new(image_name: &str) -> (r: Option<Registry>)
        ensures
            match parse_image_ref(image_name@) {
                Option::None => r is None,
                Option::Some(parts) => r is Some && r->Some_0@.image_name == parts.0
                    && r->Some_0@.image_tag == parts.1 && r->Some_0@.token is None
                    && r->Some_0@.manifest is None,
            },
    {
        let n = image_name.unicode_len();
        let mut i: usize = 0;
        while i < n
            invariant
                i <= n,
                n == image_name@.len(),
                first_colon(image_name@, 0) == first_colon(image_name@, i as int),
            decreases n - i,
        {
            if image_name.get_char(i) == ':' {
                if i == 0 || i + 1 >= n {
                    return None;
                }
                let repo = image_name.substring_char(0, i);
                let tag = image_name.substring_char(i + 1, n);
                return Some(
                    Registry {
                        image_name: repo.to_owned(),
                        image_tag: tag.to_owned(),
                        token: None,
                        manifest: None,
                    },
                );
            }
            i = i + 1;
        }
        None
    }

    /// The repository name of the session's image reference.
    pub fn image_name(&self) -> (r: &str)
        ensures
            r@ == self@.image_name,
    {
        self.image_name.as_str()
    }

    /// The tag of the session's image reference.
    pub fn image_tag(&self) -> (r: &str)
        ensures
            r@ == self@.image_tag,
    {
        self.image_tag.as_str()
    }

    /// Whether authentication has succeeded.
    pub fn has_token(&self) -> (r: bool)
        ensures
            r == (self@.token is Some),
    {
        self.token.is_some()
    }

    /// Whether the manifest has been fetched.
    pub fn has_manifest(&self) -> (r: bool)
        ensures
            r == (self@.manifest is Some),
    {
        self.manifest.is_some()
    }

    /// The fetched manifest, once there is one.
    pub fn manifest(&self) -> (r: Option<&Manifest>)
        ensures
            match r {
                Option::None => self@.manifest is None,
                Option::Some(m) => self@.manifest == Some(m@),
            },
    {
        self.manifest.as_ref()
    }

    /// The pull scope requested from the authentication endpoint.
    pub fn auth_scope(&self) -> (r: String)
        ensures
            r@ == "repository:library/"@ + self@.image_name + ":pull"@,
    {
        let mut s = String::from_str("repository:library/");
        s.append(self.image_name.as_str());
        s.append(":pull");
        s
    }

    /// The manifest endpoint for the session's repository and tag.
    pub fn manifest_url(&self) -> (r: String)
        ensures
            r@ == "https://registry-1.docker.io/v2"@ + "/library/"@ + self@.image_name
                + "/manifests/"@ + self@.image_tag,
    {
        let mut s = String::from_str(registry_api_url());
        s.append("/library/");
        s.append(self.image_name.as_str());
        s.append("/manifests/");
        s.append(self.image_tag.as_str());
        s
    }

    /// The blob endpoint for one layer's digest.
    pub fn blob_url(&self, i: usize) -> (r: String)
        requires
            self@.manifest is Some,
            i < self@.manifest->Some_0.layers.len(),
        ensures
            r@ == "https://registry-1.docker.io/v2"@ + "/library/"@ + self@.image_name
                + "/blobs/"@ + self@.manifest->Some_0.layers[i as int].digest,
    {
        let m = self.manifest.as_ref().unwrap();
        let l = m.layer(i);
        let mut s = String::from_str(registry_api_url());
        s.append("/library/");
        s.append(self.image_name.as_str());
        s.append("/blobs/");
        s.append(l.digest());
        s
    }

    /// The bearer authorization header value.
    pub fn bearer(&self) -> (r: String)
        requires
            self@.token is Some,
        ensures
            r@ == "Bearer "@ + self@.token->Some_0,
    {
        let mut s = String::from_str("Bearer ");
        s.append(self.token.as_ref().unwrap().as_str());
        s
    }

    /// Handles the authentication response: keeps exactly the token the
    /// body holds, and fails with [`Fault::AuthenticationError`] when the
    /// transport call failed (`None`) or the body holds no usable token.
    pub fn auth(&mut self, response_body: Option<&str>) -> (r: Result<(), Fault>)
        ensures
            final(self)@.image_name == old(self)@.image_name,
            final(self)@.image_tag == old(self)@.image_tag,
            final(self)@.manifest == old(self)@.manifest,
            response_body is None ==> r is Err,
            response_body matches Some(b) ==> (match token_of(b@) {
                Option::Some(t) => r is Ok && final(self)@.token == Some(t),
                Option::None => r is Err,
            }),
            r is Ok ==> final(self)@.token is Some,
            r is Err ==> r->Err_0 == Fault::AuthenticationError && final(self)@ == old(self)@,
    {
        let body = match response_body {
            Option::Some(b) => b,
            Option::None => {
                return Err(Fault::AuthenticationError);
            },
        };
        let parsed = match json_parse(body) {
            Result::Ok(v) => v,
            Result::Err(_) => {
                return Err(Fault::AuthenticationError);
            },
        };
        let token_value = match json_get(&parsed, "token") {
            Option::Some(t) => t,
            Option::None => {
                return Err(Fault::AuthenticationError);
            },
        };
        let token_str = match json_as_str(token_value) {
            Option::Some(s) => s,
            Option::None => {
                return Err(Fault::AuthenticationError);
            },
        };
        self.token = Some(token_str.to_owned());
        Ok(())
    }

    /// Handles the manifest response. A prior successful `auth` is the
    /// caller's obligation, not a runtime check. A non-success status or a
    /// missing body is a registry failure; a body that does not describe a
    /// v2 manifest is a decode failure; otherwise exactly the manifest the
    /// body describes is kept, layer order included.
    pub fn get_manifests(&mut self, success: bool, body: Option<&str>) -> (r: Result<(), Fault>)
        requires
            old(self)@.token is Some,
        ensures
            final(self)@.image_name == old(self)@.image_name,
            final(self)@.image_tag == old(self)@.image_tag,
            final(self)@.token == old(self)@.token,
            !success ==> r is Err && r->Err_0 == Fault::RegistryRequestError,
            success && body is None ==> r is Err && r->Err_0 == Fault::RegistryRequestError,
            success ==> (body matches Some(b) ==> (match manifest_of(b@) {
                Option::Some(m) => r is Ok && final(self)@.manifest == Some(m),
                Option::None => r is Err && r->Err_0 == Fault::DecodeError,
            })),
            r is Ok ==> final(self)@.manifest is Some,
            r is Err ==> final(self)@ == old(self)@ && (r->Err_0 == Fault::RegistryRequestError
                || r->Err_0 == Fault::DecodeError),
    {
        if !success {
            return Err(Fault::RegistryRequestError);
        }
        let b = match body {
            Option::Some(b) => b,
            Option::None => {
                return Err(Fault::RegistryRequestError);
            },
        };
        match decode_manifest(b) {
            Result::Ok(m) => {
                self.manifest = Some(m);
                Ok(())
            },
            Result::Err(e) => Err(e),
        }
    }

    /// How many layers the fetched manifest lists.
    pub fn layer_count(&self) -> (r: usize)
        requires
            self@.manifest is Some,
        ensures
            r == self@.manifest->Some_0.layers.len(),
    {
        self.manifest.as_ref().unwrap().layer_count()
    }

    /// Handles one layer's blob response: checks the status, checks the
    /// body length against the declared layer size, and unpacks the blob
    /// onto the root. On failure the root is left untouched, and no entry
    /// ever adds a path that escapes the root.
    pub fn apply_layer(
        &self,
        i: usize,
        success: bool,
        bytes: &Vec<u8>,
        root: &mut SandboxRoot,
    ) -> (r: Result<(), Fault>)
        requires
            self@.manifest is Some,
            i < self@.manifest->Some_0.layers.len(),
            !old(root).is_sealed(),
        ensures
            !final(root).is_sealed(),
            match layer_step(
                old(root)@,
                self@.manifest->Some_0.layers[i as int].size,
                success,
                bytes@,
            ) {
                Result::Ok(m2) => r is Ok && final(root)@ == m2,
                Result::Err(e) => r is Err && r->Err_0 == e && *final(root) == *old(root),
            },
            forall|p: Seq<u8>|
                final(root)@.contains_key(p) && !old(root)@.contains_key(p) ==> path_is_safe(p),
    {
        if !success {
            return Err(Fault::RegistryRequestError);
        }
        let m = self.manifest.as_ref().unwrap();
        let l = m.layer(i);
        if bytes.len() as u64 != l.size() {
            return Err(Fault::IntegrityError);
        }
        match unpack(bytes, root) {
            Result::Ok(_) => Ok(()),
            Result::Err(e) => Err(e),
        }
    }

    /// Applies every layer's response in listed order, stopping at the
    /// first failure: exactly the fold of `layer_step` over the layers.
    /// Layers after a failing one are not applied.
    pub fn download_layers(&self, responses: &Vec<BlobResponse>, root: &mut SandboxRoot) -> (r:
        Result<(), Fault>)
        requires
            self@.manifest is Some,
            responses@.len() == self@.manifest->Some_0.layers.len(),
            !old(root).is_sealed(),
        ensures
            !final(root).is_sealed(),
            final(root)@ == run_layers(
                old(root)@,
                self@.manifest->Some_0.layers,
                blob_views(responses@),
            ).0,
            match run_layers(old(root)@, self@.manifest->Some_0.layers, blob_views(responses@)).1 {
                Option::None => r is Ok,
                Option::Some(e) => r is Err && r->Err_0 == e,
            },
            forall|p: Seq<u8>|
                final(root)@.contains_key(p) && !old(root)@.contains_key(p) ==> path_is_safe(p),
    {
        let ghost ls = self@.manifest->Some_0.layers;
        let ghost rs = blob_views(responses@);
        let ghost m0 = root@;
        let n = self.manifest.as_ref().unwrap().layer_count();
        let mut i: usize = 0;
        proof {
            assert(ls.skip(0) =~= ls);
            assert(rs.skip(0) =~= rs);
        }
        while i < n
            invariant
                i <= n,
                n == ls.len(),
                rs.len() == ls.len(),
                self@.manifest is Some,
                ls == self@.manifest->Some_0.layers,
                rs == blob_views(responses@),
                responses@.len() == rs.len(),
                m0 == old(root)@,
                !root.is_sealed(),
                run_layers(m0, ls, rs) == run_layers(root@, ls.skip(i as int), rs.skip(i as int)),
                forall|p: Seq<u8>|
                    root@.contains_key(p) && !m0.contains_key(p) ==> path_is_safe(p),
            decreases n - i,
        {
            let ghost pre = root@;
            proof {
                assert(rs[i as int] == responses@[i as int]@);
                assert(ls.skip(i as int)[0] == ls[i as int]);
                assert(rs.skip(i as int)[0] == rs[i as int]);
                assert(ls.skip(i as int).skip(1) =~= ls.skip(i as int + 1));
                assert(rs.skip(i as int).skip(1) =~= rs.skip(i as int + 1));
            }
            let resp = &responses[i];
            match self.apply_layer(i, resp.success, &resp.bytes, root) {
                Result::Ok(_) => {
                    proof {
                        assert(run_layers(pre, ls.skip(i as int), rs.skip(i as int)) == run_layers(
                            root@,
                            ls.skip(i as int + 1),
                            rs.skip(i as int + 1),
                        ));
                    }
                },
                Result::Err(e) => {
                    proof {
                        assert(run_layers(pre, ls.skip(i as int), rs.skip(i as int)) == (
                            pre,
                            Some(e),
                        ));
                    }
                    return Err(e);
                },
            }
            i = i + 1;
        }
        proof {
            assert(ls.skip(n as int) =~= Seq::<LayerView>::empty());
            assert(rs.skip(n as int) =~= Seq::<(bool, Seq<u8>)>::empty());
        }
        Ok(())
    }
}

} // verus!
