use rocket_okapi::handlers::RedirectHandler;
use rocket_okapi::swagger_ui::{
    is_zero, swagger_ui_redirect, swagger_ui_static, DefaultModelRendering, DocExpansion, Filter,
    MediaType, SwaggerUIConfig, UrlObject,
};

#[test]
fn default_config() {
    let config = SwaggerUIConfig::default();
    assert_eq!(config.url, "");
    assert!(config.urls.is_empty());
    assert!(!config.deep_linking);
    assert!(!config.display_operation_id);
    assert_eq!(config.default_models_expand_depth, 1);
    assert_eq!(config.default_model_expand_depth, 1);
    assert_eq!(config.default_model_rendering, DefaultModelRendering::Example);
    assert!(!config.display_request_duration);
    assert_eq!(config.doc_expansion, DocExpansion::List);
    assert_eq!(config.filter, Filter::Bool(false));
    assert_eq!(config.max_displayed_tags, 0);
    assert!(!config.show_extensions);
    assert!(!config.show_common_extensions);
}

#[test]
fn config_with_one_url() {
    let config = SwaggerUIConfig { url: "../openapi.json".to_owned(), ..Default::default() };
    assert_eq!(config.url, "../openapi.json");
    assert_eq!(config.doc_expansion, DocExpansion::List);
}

#[test]
fn url_object_keeps_name_and_url() {
    let url = UrlObject::new("API v1", "/api/v1/openapi.json");
    assert_eq!(url.name, "API v1");
    assert_eq!(url.url, "/api/v1/openapi.json");
}

#[test]
fn zero_is_zero() {
    assert!(is_zero(&0));
    assert!(!is_zero(&1));
    assert!(!is_zero(&u32::MAX));
}

#[test]
fn static_files_have_their_media_types() {
    assert_eq!(swagger_ui_static("favicon-16x16.png"), Some(MediaType::Png));
    assert_eq!(swagger_ui_static("favicon-32x32.png"), Some(MediaType::Png));
    assert_eq!(swagger_ui_static("index.html"), Some(MediaType::Html));
    assert_eq!(swagger_ui_static("oauth2-redirect.html"), Some(MediaType::Html));
    assert_eq!(swagger_ui_static("swagger-ui.js"), Some(MediaType::JavaScript));
    assert_eq!(swagger_ui_static("swagger-ui-standalone-preset.js"), Some(MediaType::JavaScript));
    assert_eq!(swagger_ui_static("swagger-ui-bundle.js"), Some(MediaType::JavaScript));
    assert_eq!(swagger_ui_static("swagger-ui.css"), Some(MediaType::Css));
}

#[test]
fn unknown_static_files_are_not_found() {
    assert_eq!(swagger_ui_static(""), None);
    assert_eq!(swagger_ui_static("index.htm"), None);
    assert_eq!(swagger_ui_static("Index.html"), None);
    assert_eq!(swagger_ui_static("../index.html"), None);
}

#[test]
fn redirect_drops_leading_slashes() {
    assert_eq!(RedirectHandler::to("index.html").dest(), "index.html");
    assert_eq!(RedirectHandler::to("/index.html").dest(), "index.html");
    assert_eq!(RedirectHandler::to("///a/b/").dest(), "a/b/");
    assert_eq!(RedirectHandler::to("").dest(), "");
    assert_eq!(RedirectHandler::to("//").dest(), "");
}

#[test]
fn redirect_target_joins_base_and_destination() {
    let handler = RedirectHandler::to("/index.html");
    assert_eq!(handler.target("/swagger-ui/"), "/swagger-ui/index.html");
    assert_eq!(handler.target("/swagger-ui"), "/swagger-ui/index.html");
    assert_eq!(handler.target("/swagger-ui///"), "/swagger-ui/index.html");
    assert_eq!(handler.target("/"), "/index.html");
    assert_eq!(handler.target(""), "/index.html");
}

#[test]
fn page_redirects_to_its_index() {
    assert_eq!(swagger_ui_redirect().dest(), "index.html");
    assert_eq!(swagger_ui_redirect().target("/docs/"), "/docs/index.html");
}
