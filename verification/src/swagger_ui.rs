//! Configuration of the interactive documentation page and the table of
//! the static files that make it up.

use vstd::prelude::*;
use crate::handlers::redirect::{RedirectHandler, trim_leading_slashes};
use crate::text::same_text;

verus! {

/// Used to control the way models are displayed by default.
#[derive(Clone, Copy, Debug, PartialEq, Eq, Structural)]
pub enum DefaultModelRendering {
    /// Expand the `example` section.
    Example,
    /// Expand the `model` section.
    Model,
}

/// Used to control the default expansion setting for the operations and tags.
#[derive(Clone, Copy, Debug, PartialEq, Eq, Structural)]
pub enum DocExpansion {
    /// Expands only the tags.
    List,
    /// Expands the tags and operations
    Full,
    /// Expands nothing
    Nothing,
}

/// Used to enable, disable and preconfigure filtering
#[derive(Clone, Debug, PartialEq, Eq)]
pub enum Filter {
    /// Use this variant to enable or disable filtering.
    Bool(bool),
    /// Use this variant to enable filtering, and preconfigure a filter.
    Str(String),
}

/// Whether the number is zero: such a limit on displayed tags is left out
/// of the served configuration.
pub fn is_zero(num: &u32) -> (out: bool)
    ensures
        out == (*num == 0),
{
    *num == 0
}

/// Contains a named url.
#[derive(Clone, Debug, PartialEq, Eq)]
pub struct UrlObject {
    /// The name of the url.
    pub name: String,
    /// The url itself.
    pub url: String,
}

impl UrlObject {
    /// Create a new `UrlObject` from the provided name and url.
    #[must_use]
    pub fn new(name: &str, url: &str) -> (out: Self)
        ensures
            out.name@ == name@,
            out.url@ == url@,
    {
        Self { name: name.to_owned(), url: url.to_owned() }
    }
}

/// A struct containing information about where and how the `openapi.json` files are served.
#[derive(Clone, Debug, PartialEq, Eq)]
pub struct SwaggerUIConfig {
    /// The url to a single `openapi.json` file that is showed when the web ui is first opened.
    pub url: String,
    /// A list of named urls that contain all the `openapi.json` files that you want to display in
    /// your web ui. If this field is populated, the `url` field is not used.
    pub urls: Vec<UrlObject>,
    /// If set to true, enables deep linking for tags and operations.
    /// Default: `false`.
    pub deep_linking: bool,
    /// Controls the display of operationId in operations list.
    /// Default: `false`.
    pub display_operation_id: bool,
    /// The default expansion depth for models (set to -1 completely hide the models).
    /// Default: `1`.
    pub default_models_expand_depth: i32,
    /// The default expansion depth for the model on the model-example section.
    /// Default: `1`.
    pub default_model_expand_depth: i32,
    /// Controls how the model is shown when the API is first rendered.
    /// Default: `DefaultModelRendering::Example`.
    pub default_model_rendering: DefaultModelRendering,
    /// Controls the display of the request duration (in milliseconds) for "Try it out" requests.
    /// Default: `false`.
    pub display_request_duration: bool,
    /// Controls the default expansion setting for the operations and tags.
    /// Default: `DocExpansion::List`.
    pub doc_expansion: DocExpansion,
    /// If set, enables filtering. The top bar will show an edit box that you can use to filter the
    /// tagged operations that are shown.
    /// Default: `Filter(false)`.
    pub filter: Filter,
    /// If set, limits the number of tagged operations displayed to at most this many. Zero
    /// shows all of them.
    /// Default: `0`.
    pub max_displayed_tags: u32,
    /// Controls the display of vendor extension (`x-`) fields and values for Operations,
    /// Parameters, and Schema.
    /// Default: `false`.
    pub show_extensions: bool,
    /// Controls the display of extensions (`pattern`, `maxLength`, `minLength`, `maximum`,
    /// `minimum`) fields and values for Parameters.
    /// Default: `false`.
    pub show_common_extensions: bool,
}

impl Default for SwaggerUIConfig {
    fn default() -> (out: Self)
        ensures
            out.url@ == Seq::<char>::empty(),
            out.urls@ == Seq::<UrlObject>::empty(),
            !out.deep_linking,
            !out.display_operation_id,
            out.default_models_expand_depth == 1,
            out.default_model_expand_depth == 1,
            out.default_model_rendering == DefaultModelRendering::Example,
            !out.display_request_duration,
            out.doc_expansion == DocExpansion::List,
            out.filter == Filter::Bool(false),
            out.max_displayed_tags == 0,
            !out.show_extensions,
            !out.show_common_extensions,
    {
        Self {
            url: String::new(),
            urls: Vec::new(),
            deep_linking: false,
            display_operation_id: false,
            default_model_expand_depth: 1,
            default_model_rendering: DefaultModelRendering::Example,
            default_models_expand_depth: 1,
            display_request_duration: false,
            doc_expansion: DocExpansion::List,
            filter: Filter::Bool(false),
            max_displayed_tags: 0,
            show_extensions: false,
            show_common_extensions: false,
        }
    }
}

/// The kind of content of a static file of the documentation page.
#[derive(Clone, Copy, Debug, PartialEq, Eq, Structural)]
pub enum MediaType {
    Png,
    Html,
    JavaScript,
    Css,
}

/// The kind of content of the static file with the given name, or nothing
/// if the page has no such file.
pub open spec fn static_file_type(file: Seq<char>) -> Option<MediaType> {
    if file == "favicon-16x16.png"@ || file == "favicon-32x32.png"@ {
        Some(MediaType::Png)
    } else if file == "index.html"@ || file == "oauth2-redirect.html"@ {
        Some(MediaType::Html)
    } else if file == "swagger-ui.js"@ || file == "swagger-ui-standalone-preset.js"@ || file
        == "swagger-ui-bundle.js"@ {
        Some(MediaType::JavaScript)
    } else if file == "swagger-ui.css"@ {
        Some(MediaType::Css)
    } else {
        None
    }
}

/// Looks a static file of the documentation page up by its name: its
/// kind of content, or nothing if the page has no such file.
pub fn swagger_ui_static(file: &str) -> (out: Option<MediaType>)
    ensures
        out == static_file_type(file@),
{
    if same_text(file, "favicon-16x16.png") || same_text(file, "favicon-32x32.png") {
        Some(MediaType::Png)
    } else if same_text(file, "index.html") || same_text(file, "oauth2-redirect.html") {
        Some(MediaType::Html)
    } else if same_text(file, "swagger-ui.js") || same_text(file, "swagger-ui-standalone-preset.js")
        || same_text(file, "swagger-ui-bundle.js") {
        Some(MediaType::JavaScript)
    } else if same_text(file, "swagger-ui.css") {
        Some(MediaType::Css)
    } else {
        None
    }
}

/// The handler that redirects the mount point of the documentation page
/// to its `index.html`.
pub fn swagger_ui_redirect<'r>() -> (out: RedirectHandler<'r>)
    ensures
        out.destination() == "index.html"@,
{
    proof {
        reveal_strlit("index.html");
        assert(trim_leading_slashes("index.html"@) == "index.html"@);
    }
    RedirectHandler::to("index.html")
}

} // verus!
