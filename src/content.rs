use vstd::prelude::*;

use crate::text::{chars_of, same_text, starts_with, string_of};

verus! {

/// What the view shows.
#[derive(Clone, Debug, PartialEq, Eq)]
pub enum ContentSource {
    Html(String),
    Url(String),
    /// A file on disk, served under the `localfile` scheme.
    LocalFile(String),
}

/// A configuration that names no content, or both kinds.
#[derive(Clone, Copy, Debug, PartialEq, Eq, Structural)]
pub enum ConfigError {
    NoContent,
    BothHtmlAndUrl,
}

pub enum ContentModel {
    Html(Seq<char>),
    Url(Seq<char>),
    LocalFile(Seq<char>),
}

impl View for ContentSource {
    type V = ContentModel;

    open spec fn view(&self) -> ContentModel {
        match self {
            ContentSource::Html(h) => ContentModel::Html(h@),
            ContentSource::Url(u) => ContentModel::Url(u@),
            ContentSource::LocalFile(f) => ContentModel::LocalFile(f@),
        }
    }
}

pub open spec fn local_prefix() -> Seq<char> {
    "localfile://"@
}

pub open spec fn content_of(html: Option<Seq<char>>, url: Option<Seq<char>>) -> Result<
    ContentModel,
    ConfigError,
> {
    match (html, url) {
        (Some(_), Some(_)) => Err(ConfigError::BothHtmlAndUrl),
        (None, None) => Err(ConfigError::NoContent),
        (Some(h), None) => Ok(ContentModel::Html(h)),
        (None, Some(u)) => if local_prefix().len() <= u.len() && u.take(local_prefix().len() as int)
            == local_prefix() {
            Ok(ContentModel::LocalFile(u.skip(local_prefix().len() as int)))
        } else {
            Ok(ContentModel::Url(u))
        },
    }
}

/// Takes inline markup or a URL, exactly one of them. A URL under
/// `localfile://` names a file, given by what follows the prefix.
pub fn choose_content(html: Option<String>, url: Option<String>) -> (r: Result<
    ContentSource,
    ConfigError,
>)
    ensures
        content_of(
            match html {
                Some(h) => Some(h@),
                None => None,
            },
            match url {
                Some(u) => Some(u@),
                None => None,
            },
        ) == match r {
            Ok(c) => Ok::<ContentModel, ConfigError>(c@),
            Err(e) => Err(e),
        },
{
    match (html, url) {
        (Some(_), Some(_)) => Err(ConfigError::BothHtmlAndUrl),
        (None, None) => Err(ConfigError::NoContent),
        (Some(h), None) => Ok(ContentSource::Html(h)),
        (None, Some(u)) => {
            proof {
                reveal_strlit("localfile://");
            }
            if starts_with(u.as_str(), "localfile://") {
                let cs = chars_of(u.as_str());
                let mut rest: Vec<char> = Vec::new();
                let mut i: usize = 12;
                while i < cs.len()
                    invariant
                        12 <= i <= cs@.len(),
                        rest@ == cs@.subrange(12, i as int),
                    decreases cs@.len() - i,
                {
                    rest.push(cs[i]);
                    i = i + 1;
                    assert(rest@ =~= cs@.subrange(12, i as int));
                }
                assert(rest@ =~= u@.skip(12));
                Ok(ContentSource::LocalFile(string_of(&rest)))
            } else {
                Ok(ContentSource::Url(u))
            }
        },
    }
}

pub open spec fn mime_of(ext: Option<Seq<char>>) -> Seq<char> {
    match ext {
        Some(e) => if e == "html"@ {
            "text/html"@
        } else if e == "js"@ {
            "text/javascript"@
        } else if e == "css"@ {
            "text/css"@
        } else if e == "png"@ || e == "jpg"@ || e == "jpeg"@ || e == "gif"@ || e == "svg"@ {
            "image/"@
        } else {
            "application/octet-stream"@
        },
        None => "application/octet-stream"@,
    }
}

/// The content type under which a file with extension `ext` is served.
pub fn mime_type(ext: Option<&str>) -> (r: &'static str)
    ensures
        r@ == mime_of(
            match ext {
                Some(e) => Some(e@),
                None => None,
            },
        ),
{
    match ext {
        Some(e) => if same_text(e, "html") {
            "text/html"
        } else if same_text(e, "js") {
            "text/javascript"
        } else if same_text(e, "css") {
            "text/css"
        } else if same_text(e, "png") || same_text(e, "jpg") || same_text(e, "jpeg") || same_text(
            e,
            "gif",
        ) || same_text(e, "svg") {
            "image/"
        } else {
            "application/octet-stream"
        },
        None => "application/octet-stream",
    }
}

/// A script that the view runs before any page script.
#[derive(Clone, Copy, Debug, PartialEq, Eq, Structural)]
pub enum InitScript {
    WindowFunctions,
    WindowEvents,
    Api,
    WindowBorders,
}

/// The scripts installed in the view, in order: the window functions and
/// events always, the call bridge where host functions are given, and the
/// resize borders where the window has no native decorations.
pub fn init_scripts(api: bool, decorations: bool) -> (r: Vec<InitScript>)
    ensures
        r@ == seq![InitScript::WindowFunctions, InitScript::WindowEvents] + (if api {
            seq![InitScript::Api]
        } else {
            Seq::empty()
        }) + (if decorations {
            Seq::empty()
        } else {
            seq![InitScript::WindowBorders]
        }),
{
    let mut r: Vec<InitScript> = Vec::new();
    r.push(InitScript::WindowFunctions);
    r.push(InitScript::WindowEvents);
    if api {
        r.push(InitScript::Api);
    }
    if !decorations {
        r.push(InitScript::WindowBorders);
    }
    assert(r@ =~= seq![InitScript::WindowFunctions, InitScript::WindowEvents] + (if api {
        seq![InitScript::Api]
    } else {
        Seq::empty()
    }) + (if decorations {
        Seq::empty()
    } else {
        seq![InitScript::WindowBorders]
    }));
    r
}

} // verus!
