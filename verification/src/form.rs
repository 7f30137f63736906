//! The form of a view: raw field values are decoded into a configuration,
//! and a rendered submission is committed and published.
//!
//! A field that is absent or does not parse silently takes a default. No
//! error is ever reported for a field. A submission runs to its end within
//! one call: the form is idle before it and idle after it.

use vstd::prelude::*;
use crate::bridge::{location_text, publish_location};
use crate::codec::{
    decode_decimal, decode_integer, decoded_decimal, decoded_integer, optional_text,
};
use crate::config::{copy_optional_text, ConfigView, OrganizerConfig};
use crate::store::{
    accepts, committed, render_request, renders, ConfigurationStore, RenderRequest,
};

verus! {

/// The mathematical content of the raw fields.
pub struct RawFormView {
    pub rows: Option<Seq<char>>,
    pub columns: Option<Seq<char>>,
    pub material_thickness: Option<Seq<char>>,
    pub container_key: Option<Seq<char>>,
}

/// The raw values of the fields of a form, as text, before any decoding. A
/// field that the form does not have is `None`.
#[derive(Debug, PartialEq, Eq)]
pub struct RawFormInput {
    pub rows: Option<String>,
    pub columns: Option<String>,
    pub material_thickness: Option<String>,
    pub container_key: Option<String>,
}

impl View for RawFormInput {
    type V = RawFormView;

    open spec fn view(&self) -> RawFormView {
        RawFormView {
            rows: optional_text(self.rows),
            columns: optional_text(self.columns),
            material_thickness: optional_text(self.material_thickness),
            container_key: optional_text(self.container_key),
        }
    }
}

/// The configuration that a submission of `raw` yields. Both the rows and the
/// columns fall back to the default of the columns; the container key is
/// taken as it is.
pub open spec fn decoded_submission(raw: RawFormView, defaults: ConfigView) -> ConfigView {
    ConfigView {
        rows: decoded_integer(raw.rows, defaults.columns),
        columns: decoded_integer(raw.columns, defaults.columns),
        material_thickness: decoded_decimal(raw.material_thickness, defaults.material_thickness),
        container_key: match raw.container_key {
            Some(key) => Some(key),
            None => defaults.container_key,
        },
    }
}

/// The location that a submission publishes, where the view publishes at all.
pub open spec fn published_location(path: Option<Seq<char>>, config: ConfigView) -> Option<
    Seq<char>,
> {
    match path {
        Some(p) => Some(location_text(p, config)),
        None => None,
    }
}

/// The mathematical content of a form controller.
pub struct FormView {
    pub defaults: ConfigView,
    pub publish_path: Option<Seq<char>>,
}

/// The controller of a form: the defaults that fields fall back to, and the
/// path under which submissions are published, if they are.
pub struct FormController {
    defaults: OrganizerConfig,
    publish_path: Option<String>,
}

impl View for FormController {
    type V = FormView;

    closed spec fn view(&self) -> FormView {
        FormView { defaults: self.defaults@, publish_path: optional_text(self.publish_path) }
    }
}

/// The string slice inside an optional string.
fn optional_slice(text: &Option<String>) -> (slice: Option<&str>)
    ensures
        slice is Some <==> text is Some,
        slice matches Some(s) ==> s@ == text->0@,
{
    match text {
        Some(s) => Some(s.as_str()),
        None => None,
    }
}

impl FormController {
    /// A controller with the given defaults. With a `publish_path` every
    /// submission is published under that path.
    pub fn new(defaults: OrganizerConfig, publish_path: Option<String>) -> (form: FormController)
        ensures
            form@ == (FormView {
                defaults: defaults@,
                publish_path: optional_text(publish_path),
            }),
    {
        FormController { defaults, publish_path }
    }

    /// Decodes the raw fields of a submission into a configuration.
    pub fn decode(&self, raw: &RawFormInput) -> (config: OrganizerConfig)
        ensures
            config@ == decoded_submission(raw@, self@.defaults),
    {
        let rows = decode_integer(optional_slice(&raw.rows), self.defaults.columns);
        let columns = decode_integer(optional_slice(&raw.columns), self.defaults.columns);
        let material_thickness = decode_decimal(
            optional_slice(&raw.material_thickness),
            self.defaults.material_thickness,
        );
        let container_key = match &raw.container_key {
            Some(key) => Some(key.clone()),
            None => copy_optional_text(&self.defaults.container_key),
        };
        OrganizerConfig { rows, columns, material_thickness, container_key }
    }

    /// Handles a submission of `raw`: the fields are decoded, the renderer is
    /// called for the decoded configuration, the store commits, and the
    /// location to publish is made. Returns the location to navigate to, or
    /// `None` where the view does not publish.
    pub fn submit<F: FnOnce(RenderRequest) -> String>(
        &self,
        store: &mut ConfigurationStore,
        raw: &RawFormInput,
        render: F,
    ) -> (location: Option<String>)
        requires
            accepts(render, decoded_submission(raw@, self@.defaults)),
        ensures
            renders(
                render,
                decoded_submission(raw@, self@.defaults),
                final(store)@.output.markup,
            ),
            final(store)@ == committed(
                old(store)@,
                decoded_submission(raw@, self@.defaults),
                final(store)@.output.markup,
            ),
            optional_text(location) == published_location(
                self@.publish_path,
                decoded_submission(raw@, self@.defaults),
            ),
    {
        let config = self.decode(raw);
        let request = render_request(&config);
        let ghost asked = request;
        let markup = render(request);
        let ghost returned = markup;
        assert(call_ensures(render, (asked,), returned));
        self.complete(store, config, markup)
    }

    /// Completes a submission once the renderer has returned the markup for
    /// `config`: the store commits, and only then the location to publish is
    /// made, from what the store now holds, so that it never runs ahead of
    /// the output. Returns the location to navigate to, or `None` where the
    /// view does not publish.
    pub fn complete(
        &self,
        store: &mut ConfigurationStore,
        config: OrganizerConfig,
        markup: String,
    ) -> (location: Option<String>)
        ensures
            final(store)@ == committed(old(store)@, config@, markup@),
            optional_text(location) == published_location(self@.publish_path, config@),
    {
        store.commit_rendered(config, markup);
        match &self.publish_path {
            Some(path) => Some(publish_location(store.config(), path.as_str())),
            None => None,
        }
    }
}

} // verus!
