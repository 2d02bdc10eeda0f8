use crate::bunja::config::{AssetDomain, BunjaLock, DomainProvider, Transformation};
use crate::registry::TextEntry;
use vstd::prelude::*;
use vstd::string::{StrSliceExecFns, StringExecFns};

verus! {

/// What every source of assets can do without going out: say where an asset
/// is found.
pub trait Provider {
    fn resolve_url(&self, asset_path: &str, domain: &AssetDomain) -> String;
}

/// Assets that lie on this machine.
#[derive(Debug, Clone, Copy, PartialEq, Eq, Structural)]
pub struct LocalProvider;

impl LocalProvider {
    pub fn new() -> (r: Self)
        ensures
            r == LocalProvider,
    {
        Self
    }

    /// A local asset is found under its own path.
    pub fn local_url(&self, asset_path: &str) -> (r: String)
        ensures
            r@ == asset_path@,
    {
        asset_path.to_owned()
    }
}

impl Provider for LocalProvider {
    /// A local asset is found under its own path, whatever the domain.
    fn resolve_url(&self, asset_path: &str, domain: &AssetDomain) -> (r: String)
        ensures
            r@ == asset_path@,
    {
        self.local_url(asset_path)
    }
}

/// The source of assets that a kind of domain is served by.
#[derive(Debug, Clone, Copy, PartialEq, Eq, Structural)]
pub enum AnyProvider {
    Pexels,
    Unsplash,
    Cloudinary,
    S3,
    Custom,
    Local(LocalProvider),
}

/// Picks the source of assets for a kind of domain.
pub struct ProviderFactory;

impl ProviderFactory {
    pub fn create(provider_type: &DomainProvider) -> (r: AnyProvider)
        ensures
            r == (match *provider_type {
                DomainProvider::Pexels => AnyProvider::Pexels,
                DomainProvider::Unsplash => AnyProvider::Unsplash,
                DomainProvider::Cloudinary => AnyProvider::Cloudinary,
                DomainProvider::S3 => AnyProvider::S3,
                DomainProvider::Custom => AnyProvider::Custom,
                DomainProvider::Local => AnyProvider::Local(LocalProvider),
            }),
    {
        match provider_type {
            DomainProvider::Pexels => AnyProvider::Pexels,
            DomainProvider::Unsplash => AnyProvider::Unsplash,
            DomainProvider::Cloudinary => AnyProvider::Cloudinary,
            DomainProvider::S3 => AnyProvider::S3,
            DomainProvider::Custom => AnyProvider::Custom,
            DomainProvider::Local => AnyProvider::Local(LocalProvider::new()),
        }
    }
}

/// Finds the source of assets for a domain of the lock file.
pub struct AssetResolver {
    lock: BunjaLock,
}

impl AssetResolver {
    pub closed spec fn spec_lock(&self) -> BunjaLock {
        self.lock
    }

    pub fn new(lock: BunjaLock) -> (r: Self)
        ensures
            r.spec_lock() == lock,
    {
        Self { lock }
    }

    /// The source of assets for the domain `domain_name`; none where the
    /// lock file does not name the domain.
    pub fn provider_for(&self, domain_name: &str) -> (r: Option<AnyProvider>)
        requires
            self.spec_lock().domains.wf(),
        ensures
            r == match self.spec_lock().domains.spec_get(domain_name@) {
                Some(domain) => Some(
                    match domain.provider {
                        DomainProvider::Pexels => AnyProvider::Pexels,
                        DomainProvider::Unsplash => AnyProvider::Unsplash,
                        DomainProvider::Cloudinary => AnyProvider::Cloudinary,
                        DomainProvider::S3 => AnyProvider::S3,
                        DomainProvider::Custom => AnyProvider::Custom,
                        DomainProvider::Local => AnyProvider::Local(LocalProvider),
                    },
                ),
                None => None,
            },
    {
        match self.lock.get_domain(domain_name) {
            Some(domain) => Some(ProviderFactory::create(&domain.provider)),
            None => None,
        }
    }
}

/// A request for an asset: the domain and the path within it.
pub struct AssetPath {
    pub domain: String,
    pub path: String,
}

/// The way in which a text asks for an asset.
#[derive(Debug, Clone, Copy, PartialEq, Eq, Structural)]
pub enum AssetCallType {
    BunjaProtocol,
    HtmlTag,
    CssUrl,
    JsImport,
}

/// One place in a text that asks for an asset.
pub struct AssetCall {
    pub domain: String,
    pub path: String,
    pub original: String,
    pub call_type: AssetCallType,
}

// ---------------------------------------------------------------------------
// Where an asset is found
// ---------------------------------------------------------------------------

/// `text` without the slashes at its end.
pub open spec fn spec_trim_end_slashes(text: Seq<char>) -> Seq<char>
    decreases text.len(),
{
    if text.len() > 0 && text.last() == '/' {
        spec_trim_end_slashes(text.drop_last())
    } else {
        text
    }
}

/// `text` without the slashes at its front.
pub open spec fn spec_trim_start_slashes(text: Seq<char>) -> Seq<char>
    decreases text.len(),
{
    if text.len() > 0 && text[0] == '/' {
        spec_trim_start_slashes(text.drop_first())
    } else {
        text
    }
}

/// Base and path with exactly one slash between them.
pub open spec fn spec_join_url(base: Seq<char>, path: Seq<char>) -> Seq<char> {
    spec_trim_end_slashes(base) + seq!['/'] + spec_trim_start_slashes(path)
}

/// Whether `text` starts with `prefix`.
pub open spec fn spec_has_prefix(text: Seq<char>, prefix: Seq<char>) -> bool {
    prefix.len() <= text.len() && text.subrange(0, prefix.len() as int) == prefix
}

/// Whether an asset path is an address of its own, which needs no
/// resolving.
pub open spec fn spec_is_address(path: Seq<char>) -> bool {
    spec_has_prefix(path, "http://"@) || spec_has_prefix(path, "https://"@)
}

/// Whether `text` starts with `prefix`.
pub fn has_prefix(text: &str, prefix: &str) -> (r: bool)
    ensures
        r == spec_has_prefix(text@, prefix@),
{
    let wanted = prefix.unicode_len();
    if wanted > text.unicode_len() {
        return false;
    }
    let mut i: usize = 0;
    while i < wanted
        invariant
            i <= wanted == prefix@.len() <= text@.len(),
            forall|k: int| 0 <= k < i ==> text@[k] == prefix@[k],
        decreases wanted - i,
    {
        if text.get_char(i) != prefix.get_char(i) {
            assert(text@.subrange(0, wanted as int)[i as int] != prefix@[i as int]);
            return false;
        }
        i = i + 1;
    }
    assert(text@.subrange(0, wanted as int) =~= prefix@);
    true
}

/// `text` without the slashes at its end.
pub fn trim_end_slashes(text: &str) -> (r: &str)
    ensures
        r@ == spec_trim_end_slashes(text@),
{
    let mut end: usize = text.unicode_len();
    assert(text@.subrange(0, end as int) =~= text@);
    while end > 0 && text.get_char(end - 1) == '/'
        invariant
            end <= text@.len(),
            spec_trim_end_slashes(text@) == spec_trim_end_slashes(text@.subrange(0, end as int)),
        decreases end,
    {
        assert(text@.subrange(0, end as int).drop_last() =~= text@.subrange(0, end - 1));
        end = end - 1;
    }
    text.substring_char(0, end)
}

/// `text` without the slashes at its front.
pub fn trim_start_slashes(text: &str) -> (r: &str)
    ensures
        r@ == spec_trim_start_slashes(text@),
{
    let length: usize = text.unicode_len();
    let mut start: usize = 0;
    assert(text@.subrange(0, length as int) =~= text@);
    while start < length && text.get_char(start) == '/'
        invariant
            start <= length == text@.len(),
            spec_trim_start_slashes(text@) == spec_trim_start_slashes(
                text@.subrange(start as int, length as int),
            ),
        decreases length - start,
    {
        assert(text@.subrange(start as int, length as int).drop_first() =~= text@.subrange(
            start + 1,
            length as int,
        ));
        start = start + 1;
    }
    text.substring_char(start, length)
}

/// Base and path with exactly one slash between them.
pub fn join_url(base: &str, path: &str) -> (r: String)
    ensures
        r@ == spec_join_url(base@, path@),
{
    proof {
        reveal_strlit("/");
        assert("/"@ =~= seq!['/']);
    }
    let mut url = String::from_str(trim_end_slashes(base));
    url.append("/");
    url.append(trim_start_slashes(path));
    url
}

/// One parameter of a transformation as it stands in an address: name,
/// underscore, value.
pub open spec fn spec_parameter(entry: TextEntry<String>) -> Seq<char> {
    entry.key@ + seq!['_'] + entry.value@
}

/// The parameters of a transformation as they stand in an address, with
/// commas between them, in the order in which the transformation holds them.
pub open spec fn spec_parameters(entries: Seq<TextEntry<String>>) -> Seq<char>
    decreases entries.len(),
{
    if entries.len() == 0 {
        Seq::empty()
    } else if entries.len() == 1 {
        spec_parameter(entries[0])
    } else {
        spec_parameters(entries.drop_last()) + seq![','] + spec_parameter(entries.last())
    }
}

/// The transformations as they stand in an address, with slashes between
/// them.
pub open spec fn spec_transforms(transformations: Seq<Transformation>) -> Seq<char>
    decreases transformations.len(),
{
    if transformations.len() == 0 {
        Seq::empty()
    } else if transformations.len() == 1 {
        spec_parameters(transformations[0].parameters.spec_entries())
    } else {
        spec_transforms(transformations.drop_last()) + seq!['/'] + spec_parameters(
            transformations.last().parameters.spec_entries(),
        )
    }
}

/// The address of an asset of a domain that transforms its assets: base,
/// transformations and path with one slash between each two; and base and
/// path alone where there are no transformations.
pub open spec fn spec_transformed_url(
    base: Seq<char>,
    transformations: Seq<Transformation>,
    path: Seq<char>,
) -> Seq<char> {
    if transformations.len() == 0 {
        spec_join_url(base, path)
    } else {
        spec_trim_end_slashes(base) + seq!['/'] + spec_transforms(transformations) + seq!['/']
            + spec_trim_start_slashes(path)
    }
}

/// The parameters of a transformation as they stand in an address.
fn parameters_text(transformation: &Transformation) -> (r: String)
    ensures
        r@ == spec_parameters(transformation.parameters.spec_entries()),
{
    proof {
        reveal_strlit("_");
        reveal_strlit(",");
        assert("_"@ =~= seq!['_']);
        assert(","@ =~= seq![',']);
    }
    let ghost entries = transformation.parameters.spec_entries();
    let mut text = String::new();
    let mut i: usize = 0;
    while i < transformation.parameters.len()
        invariant
            i <= entries.len(),
            entries == transformation.parameters.spec_entries(),
            "_"@ == seq!['_'],
            ","@ == seq![','],
            text@ == spec_parameters(entries.take(i as int)),
        decreases entries.len() - i,
    {
        let ghost before = text@;
        assert(entries.take(i + 1).drop_last() =~= entries.take(i as int));
        assert(entries.take(i + 1).last() == entries[i as int]);
        if i > 0 {
            text.append(",");
        }
        text.append(transformation.parameters.key_at(i).as_str());
        text.append("_");
        text.append(transformation.parameters.value_at(i).as_str());
        proof {
            if i == 0 {
                assert(before =~= Seq::<char>::empty());
                assert(entries.take(1)[0] == entries[0]);
                assert(text@ =~= spec_parameter(entries[0]));
            } else {
                assert(text@ =~= before + seq![','] + spec_parameter(entries[i as int]));
            }
        }
        i = i + 1;
    }
    assert(entries.take(i as int) =~= entries);
    text
}

/// The transformations as they stand in an address.
fn transforms_text(transformations: &Vec<Transformation>) -> (r: String)
    ensures
        r@ == spec_transforms(transformations@),
{
    proof {
        reveal_strlit("/");
        assert("/"@ =~= seq!['/']);
    }
    let mut text = String::new();
    let mut i: usize = 0;
    while i < transformations.len()
        invariant
            i <= transformations@.len(),
            "/"@ == seq!['/'],
            text@ == spec_transforms(transformations@.take(i as int)),
        decreases transformations@.len() - i,
    {
        let ghost before = text@;
        assert(transformations@.take(i + 1).drop_last() =~= transformations@.take(i as int));
        assert(transformations@.take(i + 1).last() == transformations@[i as int]);
        if i > 0 {
            text.append("/");
        }
        let part = parameters_text(&transformations[i]);
        text.append(part.as_str());
        proof {
            if i == 0 {
                assert(before =~= Seq::<char>::empty());
                assert(transformations@.take(1)[0] == transformations@[0]);
                assert(text@ =~= part@);
            } else {
                assert(text@ =~= before + seq!['/'] + part@);
            }
        }
        i = i + 1;
    }
    assert(transformations@.take(i as int) =~= transformations@);
    text
}

/// The address of an asset of a domain that transforms its assets.
pub fn transformed_url(base: &str, transformations: &Vec<Transformation>, path: &str) -> (r:
    String)
    ensures
        r@ == spec_transformed_url(base@, transformations@, path@),
{
    if transformations.len() == 0 {
        return join_url(base, path);
    }
    proof {
        reveal_strlit("/");
        assert("/"@ =~= seq!['/']);
    }
    let mut url = String::from_str(trim_end_slashes(base));
    url.append("/");
    let transforms = transforms_text(transformations);
    url.append(transforms.as_str());
    url.append("/");
    url.append(trim_start_slashes(path));
    url
}

/// What a source of assets makes of an asset path: the address of the
/// asset, or the address to ask for it.
pub enum Resolved {
    /// The asset is found at this address.
    Url(String),
    /// The address of the asset is what a search at this address answers.
    Search(String),
}

/// What `Resolved` holds, as mathematical values.
pub ghost enum ResolvedView {
    Url(Seq<char>),
    Search(Seq<char>),
}

impl View for Resolved {
    type V = ResolvedView;

    open spec fn view(&self) -> ResolvedView {
        match *self {
            Resolved::Url(url) => ResolvedView::Url(url@),
            Resolved::Search(url) => ResolvedView::Search(url@),
        }
    }
}

/// The address at which a search for `path` is asked of a service at
/// `base`, under the name `endpoint` of its search.
pub open spec fn spec_search_url(base: Seq<char>, endpoint: Seq<char>, path: Seq<char>) -> Seq<
    char,
> {
    base + endpoint + path + "&per_page=1"@
}

/// What the source `provider` makes of the asset path `path` for a domain
/// at `base` with the given transformations. A local asset is found under
/// its own path. Storage and custom domains find it under base and path.
/// The image service puts the transformations between them. The photo
/// services take an address as it is, and search for anything else.
pub open spec fn spec_resolve(
    provider: AnyProvider,
    path: Seq<char>,
    base: Seq<char>,
    transformations: Seq<Transformation>,
) -> ResolvedView {
    match provider {
        AnyProvider::Local(_) => ResolvedView::Url(path),
        AnyProvider::S3 => ResolvedView::Url(spec_join_url(base, path)),
        AnyProvider::Custom => ResolvedView::Url(spec_join_url(base, path)),
        AnyProvider::Cloudinary => ResolvedView::Url(
            spec_transformed_url(base, transformations, path),
        ),
        AnyProvider::Pexels => if spec_is_address(path) {
            ResolvedView::Url(path)
        } else {
            ResolvedView::Search(spec_search_url(base, "/search?query="@, path))
        },
        AnyProvider::Unsplash => if spec_is_address(path) {
            ResolvedView::Url(path)
        } else {
            ResolvedView::Search(spec_search_url(base, "/search/photos?query="@, path))
        },
    }
}

/// The address at which a search for `path` is asked.
fn search_url(base: &str, endpoint: &str, path: &str) -> (r: String)
    ensures
        r@ == spec_search_url(base@, endpoint@, path@),
{
    let mut url = String::from_str(base);
    url.append(endpoint);
    url.append(path);
    url.append("&per_page=1");
    url
}

/// Whether an asset path is an address of its own.
pub fn is_address(path: &str) -> (r: bool)
    ensures
        r == spec_is_address(path@),
{
    has_prefix(path, "http://") || has_prefix(path, "https://")
}

impl AnyProvider {
    /// What this source makes of an asset path for a domain: see
    /// `spec_resolve`.
    pub fn resolve_url(&self, asset_path: &str, domain: &AssetDomain) -> (r: Resolved)
        ensures
            r@ == spec_resolve(*self, asset_path@, domain.base_url@, domain.transformations@),
    {
        match self {
            AnyProvider::Local(local) => Resolved::Url(local.local_url(asset_path)),
            AnyProvider::S3 => Resolved::Url(join_url(domain.base_url.as_str(), asset_path)),
            AnyProvider::Custom => Resolved::Url(join_url(domain.base_url.as_str(), asset_path)),
            AnyProvider::Cloudinary => Resolved::Url(
                transformed_url(domain.base_url.as_str(), &domain.transformations, asset_path),
            ),
            AnyProvider::Pexels => {
                if is_address(asset_path) {
                    Resolved::Url(asset_path.to_owned())
                } else {
                    Resolved::Search(
                        search_url(domain.base_url.as_str(), "/search?query=", asset_path),
                    )
                }
            },
            AnyProvider::Unsplash => {
                if is_address(asset_path) {
                    Resolved::Url(asset_path.to_owned())
                } else {
                    Resolved::Search(
                        search_url(domain.base_url.as_str(), "/search/photos?query=", asset_path),
                    )
                }
            },
        }
    }
}

} // verus!
