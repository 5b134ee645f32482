use dry::content::{choose_content, init_scripts, mime_type, ConfigError, ContentSource, InitScript};

#[test]
fn content_needs_exactly_one_source() {
    assert_eq!(
        choose_content(Some("<p>".into()), Some("https://a".into())),
        Err(ConfigError::BothHtmlAndUrl)
    );
    assert_eq!(choose_content(None, None), Err(ConfigError::NoContent));
    assert_eq!(choose_content(Some("<p>".into()), None), Ok(ContentSource::Html("<p>".into())));
    assert_eq!(
        choose_content(None, Some("https://example.org".into())),
        Ok(ContentSource::Url("https://example.org".into()))
    );
    assert_eq!(
        choose_content(None, Some("localfile://site/index.html".into())),
        Ok(ContentSource::LocalFile("site/index.html".into()))
    );
    assert_eq!(
        choose_content(None, Some("localfile:/x".into())),
        Ok(ContentSource::Url("localfile:/x".into()))
    );
}

#[test]
fn mime_types() {
    assert_eq!(mime_type(Some("html")), "text/html");
    assert_eq!(mime_type(Some("js")), "text/javascript");
    assert_eq!(mime_type(Some("css")), "text/css");
    assert_eq!(mime_type(Some("svg")), "image/");
    assert_eq!(mime_type(Some("jpeg")), "image/");
    assert_eq!(mime_type(Some("HTML")), "application/octet-stream");
    assert_eq!(mime_type(None), "application/octet-stream");
}

#[test]
fn init_script_order() {
    assert_eq!(
        init_scripts(true, false),
        vec![
            InitScript::WindowFunctions,
            InitScript::WindowEvents,
            InitScript::Api,
            InitScript::WindowBorders
        ]
    );
    assert_eq!(init_scripts(false, true), vec![InitScript::WindowFunctions, InitScript::WindowEvents]);
}
