//! The store of a view: the committed configuration and the output rendered
//! for it, the request handed to the renderer, and the rule that shows or
//! hides the export affordance.
//!
//! Rendering itself is done by a collaborator that the caller hands in. The
//! store fixes what the collaborator is asked for and keeps the markup it
//! returns.

use vstd::prelude::*;
use crate::codec::{integer_text, lemma_integer_text_prefix_unique, optional_text, push_integer};
use crate::config::{ConfigView, OrganizerConfig};
use crate::decimal::{
    canonical, decimal_value_text, lemma_decimal_value_text_injective, Decimal, DecimalValue,
};

verus! {

/// The mathematical content of a render output.
pub struct OutputView {
    pub markup: Seq<char>,
    pub suggested_filename: Seq<char>,
}

/// What the view shows and offers for download. Empty markup means that
/// nothing was rendered yet.
#[derive(Debug, PartialEq, Eq)]
pub struct RenderOutput {
    pub markup: String,
    pub suggested_filename: String,
}

impl View for RenderOutput {
    type V = OutputView;

    open spec fn view(&self) -> OutputView {
        OutputView { markup: self.markup@, suggested_filename: self.suggested_filename@ }
    }
}

impl Clone for RenderOutput {
    fn clone(&self) -> (copy: Self)
        ensures
            copy == *self,
    {
        RenderOutput {
            markup: self.markup.clone(),
            suggested_filename: self.suggested_filename.clone(),
        }
    }
}

/// The output before anything was rendered.
pub open spec fn empty_output() -> OutputView {
    OutputView { markup: Seq::<char>::empty(), suggested_filename: Seq::<char>::empty() }
}

/// The file name suggested for the download:
/// `box_organizer_{rows}x{columns}_{material thickness}mm.svg`.
pub open spec fn filename_text(config: ConfigView) -> Seq<char> {
    "box_organizer_"@ + integer_text(config.rows) + "x"@ + integer_text(config.columns) + "_"@
        + decimal_value_text(config.material_thickness) + "mm.svg"@
}

/// The output of a commit: the markup as rendered, under the file name that
/// the configuration determines.
pub open spec fn rendered_output(config: ConfigView, markup: Seq<char>) -> OutputView {
    OutputView { markup, suggested_filename: filename_text(config) }
}

/// The export affordance is shown exactly when there is markup.
pub open spec fn export_visible(output: OutputView) -> bool {
    output.markup.len() > 0
}

/// The target of the download link: the markup, verbatim, as inline data.
pub open spec fn download_text(output: OutputView) -> Seq<char> {
    "data:image/svg+xml,"@ + output.markup
}

/// The file name suggested for the rendering of `config`.
pub fn suggested_filename(config: &OrganizerConfig) -> (name: String)
    ensures
        name@ == filename_text(config@),
{
    let mut name = String::from_str("box_organizer_");
    push_integer(&mut name, config.rows);
    name.append("x");
    push_integer(&mut name, config.columns);
    name.append("_");
    let material = config.material_thickness.to_text();
    name.append(material.as_str());
    name.append("mm.svg");
    name
}

/// Whether the export affordance is shown for `output`.
pub fn render_gate(output: &RenderOutput) -> (shown: bool)
    ensures
        shown == export_visible(output@),
{
    !output.markup.as_str().is_empty()
}

/// The target of the download link for `output`.
pub fn download_href(output: &RenderOutput) -> (href: String)
    ensures
        href@ == download_text(output@),
{
    let mut href = String::from_str("data:image/svg+xml,");
    href.append(output.markup.as_str());
    href
}

/// The mathematical content of a render request.
pub struct RequestView {
    pub rows: int,
    pub columns: int,
    pub material_thickness: DecimalValue,
    pub container_key: Option<Seq<char>>,
    pub primary_color: Seq<char>,
    pub secondary_color: Seq<char>,
}

/// What the renderer is asked for: the parameters of a configuration and the
/// two colors of the drawing.
#[derive(Debug, PartialEq, Eq)]
pub struct RenderRequest {
    pub rows: isize,
    pub columns: isize,
    pub material_thickness: Decimal,
    pub container_key: Option<String>,
    pub primary_color: String,
    pub secondary_color: String,
}

impl View for RenderRequest {
    type V = RequestView;

    open spec fn view(&self) -> RequestView {
        RequestView {
            rows: self.rows as int,
            columns: self.columns as int,
            material_thickness: self.material_thickness@,
            container_key: optional_text(self.container_key),
            primary_color: self.primary_color@,
            secondary_color: self.secondary_color@,
        }
    }
}

/// The request for `config`: its parameters, drawn in blue and black.
pub open spec fn request_for(config: ConfigView) -> RequestView {
    RequestView {
        rows: config.rows,
        columns: config.columns,
        material_thickness: config.material_thickness,
        container_key: config.container_key,
        primary_color: "blue"@,
        secondary_color: "black"@,
    }
}

/// The request to hand to the renderer for `config`.
pub fn render_request(config: &OrganizerConfig) -> (request: RenderRequest)
    ensures
        request@ == request_for(config@),
{
    let copy = config.clone();
    RenderRequest {
        rows: copy.rows,
        columns: copy.columns,
        material_thickness: copy.material_thickness,
        container_key: copy.container_key,
        primary_color: String::from_str("blue"),
        secondary_color: String::from_str("black"),
    }
}

/// The mathematical content of a store.
pub struct StoreView {
    pub config: ConfigView,
    pub output: OutputView,
}

/// A store that holds `config` and has rendered nothing yet.
pub open spec fn initial_store(config: ConfigView) -> StoreView {
    StoreView { config, output: empty_output() }
}

/// The store after a commit of `config` with the markup rendered for it. The
/// earlier configuration and output are gone: nothing of them is kept.
pub open spec fn committed(store: StoreView, config: ConfigView, markup: Seq<char>) -> StoreView {
    StoreView { config, output: rendered_output(config, markup) }
}

/// The renderer can be called with the request for `config`.
pub open spec fn accepts<F: FnOnce(RenderRequest) -> String>(render: F, config: ConfigView) -> bool {
    forall|request: RenderRequest|
        request@ == request_for(config) ==> #[trigger] call_requires(render, (request,))
}

/// `markup` is what the renderer has returned for the request for `config`.
pub open spec fn renders<F: FnOnce(RenderRequest) -> String>(
    render: F,
    config: ConfigView,
    markup: Seq<char>,
) -> bool {
    exists|request: RenderRequest, returned: String|
        request@ == request_for(config) && returned@ == markup && #[trigger] call_ensures(
            render,
            (request,),
            returned,
        )
}

/// The committed configuration of a view and the output rendered for it.
pub struct ConfigurationStore {
    config: OrganizerConfig,
    output: RenderOutput,
}

impl View for ConfigurationStore {
    type V = StoreView;

    closed spec fn view(&self) -> StoreView {
        StoreView { config: self.config@, output: self.output@ }
    }
}

impl ConfigurationStore {
    /// A store that holds `config` and no output.
    pub fn new(config: OrganizerConfig) -> (store: ConfigurationStore)
        ensures
            store@ == initial_store(config@),
    {
        ConfigurationStore {
            config,
            output: RenderOutput { markup: String::new(), suggested_filename: String::new() },
        }
    }

    /// Sets the initial configuration. With `auto_render` the view renders at
    /// once, without any user interaction: the renderer is called and its
    /// markup committed, as for a submission.
    pub fn initialize<F: FnOnce(RenderRequest) -> String>(
        config: OrganizerConfig,
        auto_render: bool,
        render: F,
    ) -> (store: ConfigurationStore)
        requires
            auto_render ==> accepts(render, config@),
        ensures
            !auto_render ==> store@ == initial_store(config@),
            auto_render ==> renders(render, config@, store@.output.markup),
            auto_render ==> store@ == committed(
                initial_store(config@),
                config@,
                store@.output.markup,
            ),
    {
        if auto_render {
            let mut store = ConfigurationStore::new(config.clone());
            store.commit(config, render);
            store
        } else {
            ConfigurationStore::new(config)
        }
    }

    /// Commits `config`: the renderer is called with the request for it, and
    /// the markup it returns replaces the output as a whole. Returns the new
    /// output.
    pub fn commit<F: FnOnce(RenderRequest) -> String>(
        &mut self,
        config: OrganizerConfig,
        render: F,
    ) -> (output: RenderOutput)
        requires
            accepts(render, config@),
        ensures
            renders(render, config@, output@.markup),
            final(self)@ == committed(old(self)@, config@, output@.markup),
            output@ == final(self)@.output,
    {
        let request = render_request(&config);
        let ghost asked = request;
        let markup = render(request);
        let ghost returned = markup;
        assert(call_ensures(render, (asked,), returned));
        self.commit_rendered(config, markup)
    }

    /// Commits `config` with the markup that the renderer returned for it.
    /// The output is replaced as a whole, and the new output is returned.
    pub fn commit_rendered(&mut self, config: OrganizerConfig, markup: String) -> (output:
        RenderOutput)
        ensures
            final(self)@ == committed(old(self)@, config@, markup@),
            output@ == rendered_output(config@, markup@),
    {
        let name = suggested_filename(&config);
        self.output = RenderOutput { markup, suggested_filename: name };
        self.config = config;
        self.output.clone()
    }

    /// The committed configuration.
    pub fn config(&self) -> (config: &OrganizerConfig)
        ensures
            config@ == self@.config,
    {
        &self.config
    }

    /// The current output.
    pub fn output(&self) -> (output: &RenderOutput)
        ensures
            output@ == self@.output,
    {
        &self.output
    }

    /// Whether the export affordance is shown.
    pub fn export_shown(&self) -> (shown: bool)
        ensures
            shown == export_visible(self@.output),
    {
        render_gate(&self.output)
    }
}

/// The store after a commit of `config` with a renderer whose markup is a
/// function of the request.
pub open spec fn committed_by(
    store: StoreView,
    config: ConfigView,
    renderer: spec_fn(RequestView) -> Seq<char>,
) -> StoreView {
    committed(store, config, renderer(request_for(config)))
}

/// Where the markup of the renderer is a function of the request, a commit
/// leaves what that function determines.
pub proof fn lemma_commit_of_deterministic_renderer<F: FnOnce(RenderRequest) -> String>(
    render: F,
    renderer: spec_fn(RequestView) -> Seq<char>,
    store: StoreView,
    config: ConfigView,
    markup: Seq<char>,
)
    requires
        forall|request: RenderRequest, returned: String| #[trigger]
            call_ensures(render, (request,), returned) ==> returned@ == renderer(request@),
        renders(render, config, markup),
    ensures
        markup == renderer(request_for(config)),
        committed(store, config, markup) == committed_by(store, config, renderer),
{
}

/// With a renderer whose markup is a function of the request, committing the
/// same configuration twice changes nothing the second time, and the markup
/// is the same whatever the store held before.
pub proof fn lemma_commit_idempotent(
    store: StoreView,
    other: StoreView,
    config: ConfigView,
    renderer: spec_fn(RequestView) -> Seq<char>,
)
    ensures
        committed_by(committed_by(store, config, renderer), config, renderer) == committed_by(
            store,
            config,
            renderer,
        ),
        committed_by(store, config, renderer).output.markup == committed_by(
            other,
            config,
            renderer,
        ).output.markup,
        committed_by(store, config, renderer).output == committed_by(other, config, renderer).output,
        committed_by(store, config, renderer).config == config,
{
}

/// Before any commit the export affordance is hidden; after a commit it is
/// shown exactly when the committed markup is not empty.
pub proof fn lemma_gate_follows_commit(store: StoreView, config: ConfigView, markup: Seq<char>)
    ensures
        !export_visible(initial_store(config).output),
        export_visible(committed(store, config, markup).output) <==> markup.len() > 0,
{
}

/// The file name spells out the rows, the columns and the material thickness
/// of the configuration, and they can be read back from it: two
/// configurations with the same file name agree on all three.
pub proof fn lemma_filename_determines_parameters(a: ConfigView, b: ConfigView)
    requires
        canonical(a.material_thickness),
        canonical(b.material_thickness),
        filename_text(a) == filename_text(b),
    ensures
        a.rows == b.rows,
        a.columns == b.columns,
        a.material_thickness == b.material_thickness,
{
    reveal_strlit("box_organizer_");
    reveal_strlit("x");
    reveal_strlit("_");
    reveal_strlit("mm.svg");
    let head = "box_organizer_"@;
    let by = "x"@;
    let bar = "_"@;
    let tail = "mm.svg"@;
    let rows_a = integer_text(a.rows);
    let rows_b = integer_text(b.rows);
    let columns_a = integer_text(a.columns);
    let columns_b = integer_text(b.columns);
    let material_a = decimal_value_text(a.material_thickness);
    let material_b = decimal_value_text(b.material_thickness);

    let after_columns_a = bar + (material_a + tail);
    let after_columns_b = bar + (material_b + tail);
    let after_rows_a = by + (columns_a + after_columns_a);
    let after_rows_b = by + (columns_b + after_columns_b);
    assert(filename_text(a) =~= head + (rows_a + after_rows_a));
    assert(filename_text(b) =~= head + (rows_b + after_rows_b));
    assert((head + (rows_a + after_rows_a)).skip(head.len() as int) =~= rows_a + after_rows_a);
    assert((head + (rows_b + after_rows_b)).skip(head.len() as int) =~= rows_b + after_rows_b);
    assert(after_rows_a[0] == 'x');
    assert(after_rows_b[0] == 'x');
    lemma_integer_text_prefix_unique(a.rows, after_rows_a, b.rows, after_rows_b);

    assert(after_rows_a.skip(1) =~= columns_a + after_columns_a);
    assert(after_rows_b.skip(1) =~= columns_b + after_columns_b);
    assert(after_columns_a[0] == '_');
    assert(after_columns_b[0] == '_');
    lemma_integer_text_prefix_unique(a.columns, after_columns_a, b.columns, after_columns_b);

    assert(after_columns_a.skip(1) =~= material_a + tail);
    assert(after_columns_b.skip(1) =~= material_b + tail);
    assert(material_a =~= (material_a + tail).take(material_a.len() as int));
    assert(material_b =~= (material_b + tail).take(material_b.len() as int));
    lemma_decimal_value_text_injective(a.material_thickness, b.material_thickness);
}

} // verus!
