//! The overlay as a whole: what it shows, and how it reacts.

use vstd::prelude::*;
use vstd::string::*;

use crate::balance;
use crate::balance::Provider;
use crate::config::{Config, Mode};
use crate::render;
use crate::render::{Row, RowModel};
use crate::system;
use crate::system::{Metrics, MetricsModel, SystemTimes};
use crate::text;

verus! {

/// Hotkey that shows and hides the overlay.
pub const HOTKEY_TOGGLE: u32 = 1;

/// Hotkey that quits.
pub const HOTKEY_EXIT: u32 = 2;

/// Hotkey that switches between the load charts and the balances.
pub const HOTKEY_MODE: u32 = 3;

/// Timer that takes load samples.
pub const TIMER_SYSTEM: usize = 1;

/// CPU load is a rate, so it needs a cadence of its own: the balance poll is far
/// slower and would report a meaningless number.
pub const SYSTEM_TICK_MS: u32 = 1000;

/// Shortest time between two balance polls.
pub const MIN_REFRESH_SECS: u64 = 5;

/// A provider and its token, unless there is none.
pub open spec fn source_of(provider: Provider, token: Seq<char>) -> Seq<(Provider, Seq<char>)> {
    if text::trimmed(token).len() > 0 {
        seq![(provider, text::trimmed(token))]
    } else {
        Seq::empty()
    }
}

/// The providers that have a token, in display order, with their tokens.
pub open spec fn sources_of(cfg: Config) -> Seq<(Provider, Seq<char>)> {
    source_of(Provider::DeepSeek, cfg.deepseek_token@) + source_of(
        Provider::OpenRouter,
        cfg.openrouter_token@,
    ) + source_of(Provider::ProxyApi, cfg.proxyapi_token@)
}

/// What a list of providers and tokens says.
pub open spec fn source_model(list: Seq<(Provider, String)>) -> Seq<(Provider, Seq<char>)> {
    Seq::new(list.len(), |i: int| (list[i].0, list[i].1@))
}

fn push_source(list: &mut Vec<(Provider, String)>, provider: Provider, token: &str)
    ensures
        source_model(final(list)@) == source_model(old(list)@) + source_of(provider, token@),
{
    let trimmed = text::trim(token);
    if !trimmed.is_empty() {
        list.push((provider, trimmed.to_owned()));
    }
    assert(source_model(list@) =~= source_model(old(list)@) + source_of(provider, token@));
}

/// The providers to poll, with their tokens. Alphabetical by label; this order
/// is the display order.
pub fn sources(cfg: &Config) -> (list: Vec<(Provider, String)>)
    ensures
        source_model(list@) == sources_of(*cfg),
{
    let mut list: Vec<(Provider, String)> = Vec::new();
    assert(source_model(list@) =~= Seq::empty());
    push_source(&mut list, Provider::DeepSeek, cfg.deepseek_token.as_str());
    push_source(&mut list, Provider::OpenRouter, cfg.openrouter_token.as_str());
    push_source(&mut list, Provider::ProxyApi, cfg.proxyapi_token.as_str());
    assert(source_model(list@) =~= sources_of(*cfg));
    list
}

/// Seconds between two balance polls.
pub open spec fn refresh_secs(cfg: Config) -> int {
    if cfg.refresh_interval_secs > MIN_REFRESH_SECS {
        cfg.refresh_interval_secs as int
    } else {
        MIN_REFRESH_SECS as int
    }
}

/// How many of `count` lines belong to the system block, which comes last.
pub open spec fn block_len(cfg: Config, count: int) -> int {
    if !cfg.show_system {
        0
    } else if count < system::LINE_COUNT {
        count
    } else {
        system::LINE_COUNT as int
    }
}

/// The lines at startup: one per provider, then the system block.
pub open spec fn first_lines(cfg: Config) -> Seq<RowModel> {
    let list = sources_of(cfg);
    Seq::new(
        list.len(),
        |i: int| RowModel::Text(list[i].0.label_chars() + ": LOADING..."@),
    ) + if cfg.show_system {
        MetricsModel::fresh().rows()
    } else {
        Seq::empty()
    }
}

/// How many of `count` lines belong to the providers, which come first.
pub open spec fn provider_slots(cfg: Config, count: int) -> int {
    count - block_len(cfg, count)
}

/// How many of `count` lines belong to the providers.
fn count_provider_slots(cfg: &Config, count: usize) -> (n: usize)
    ensures
        n == provider_slots(*cfg, count as int),
        n <= count,
{
    if cfg.show_system {
        count.saturating_sub(system::LINE_COUNT)
    } else {
        count
    }
}

/// Lines after a poll: the providers' lines replaced by the texts it brought.
/// The system block is not the poll's to write.
pub open spec fn polled(
    cfg: Config,
    lines: Seq<RowModel>,
    texts: Seq<Seq<char>>,
) -> Seq<RowModel> {
    Seq::new(
        lines.len(),
        |i: int|
            if i < texts.len() && i < provider_slots(cfg, lines.len() as int) {
                RowModel::Text(texts[i])
            } else {
                lines[i]
            },
    )
}

/// Lines after a tick: the system block replaced, if there is one. The
/// providers' lines are not the tick's to write.
pub open spec fn ticked(
    cfg: Config,
    lines: Seq<RowModel>,
    block: Seq<RowModel>,
) -> Seq<RowModel> {
    let start = provider_slots(cfg, lines.len() as int);
    Seq::new(
        lines.len(),
        |i: int|
            if i >= start {
                block[i - start]
            } else {
                lines[i]
            },
    )
}

/// Whether every line is in its slot: one text per provider, and then, if there
/// is a system block, the charts of the load histories.
pub open spec fn in_slots(cfg: Config, lines: Seq<RowModel>, metrics: MetricsModel) -> bool {
    let n = sources_of(cfg).len() as int;
    &&& lines.len() == first_lines(cfg).len()
    &&& forall|i: int| 0 <= i < n ==> (#[trigger] lines[i]) is Text
    &&& cfg.show_system ==> lines.skip(n) == metrics.rows()
}

/// The rows on screen: the system block, or the providers' lines, or, if there
/// are none of those either, a line that says so.
pub open spec fn displayed(cfg: Config, mode: Mode, lines: Seq<RowModel>) -> Seq<RowModel> {
    let split = provider_slots(cfg, lines.len() as int);
    if mode == Mode::System && cfg.show_system {
        lines.skip(split)
    } else if split > 0 {
        lines.take(split)
    } else {
        seq![RowModel::Text("NO TOKENS"@)]
    }
}

/// What the window system tells the overlay.
#[derive(Clone, Copy, Debug, PartialEq, Eq, Structural)]
pub enum Message {
    Paint,
    EraseBackground,
    /// A hotkey was pressed.
    Hotkey { wparam: usize },
    /// There are new lines to show.
    UpdateDisplay,
    /// A timer went off.
    Timer { wparam: usize },
    /// The window is on a display of another scale.
    DpiChanged { wparam: usize },
    /// The window is going away.
    Destroy,
    Other,
}

/// What is to be done about a message.
#[derive(Clone, Copy, Debug, PartialEq, Eq, Structural)]
pub enum Reaction {
    /// Nothing to paint: the surface is kept by the window system. Declare it
    /// valid and move on.
    Validate,
    /// The background counts as erased.
    Erased,
    Show,
    Hide,
    /// Close the window.
    Close,
    /// Draw the rows on screen.
    Redraw,
    /// Take a load sample, then draw.
    Sample,
    /// Rebuild the font at a new scale, then draw.
    Rescale { dpi: u32 },
    /// Release the hotkeys and the font, then end the program.
    Quit,
    Nothing,
    /// Leave the message to the window system.
    Default,
}

impl Reaction {
    /// What the window procedure returns, unless it leaves that to the window
    /// system.
    pub fn result(self) -> (code: Option<isize>)
        ensures
            code == match self {
                Reaction::Default => None::<isize>,
                Reaction::Erased => Some(1isize),
                _ => Some(0isize),
            },
    {
        match self {
            Reaction::Default => None,
            Reaction::Erased => Some(1),
            _ => Some(0),
        }
    }
}

/// What is to be done about a message while the overlay is visible or not.
pub open spec fn reaction_to(visible: bool, message: Message) -> Reaction {
    match message {
        Message::Paint => Reaction::Validate,
        Message::EraseBackground => Reaction::Erased,
        Message::Hotkey { wparam } => {
            let id = wparam as u32;
            if id == HOTKEY_TOGGLE {
                if visible {
                    Reaction::Hide
                } else {
                    Reaction::Show
                }
            } else if id == HOTKEY_EXIT {
                Reaction::Close
            } else if id == HOTKEY_MODE {
                Reaction::Redraw
            } else {
                Reaction::Nothing
            }
        },
        Message::UpdateDisplay => Reaction::Redraw,
        Message::Timer { wparam } => if wparam == TIMER_SYSTEM {
            Reaction::Sample
        } else {
            Reaction::Nothing
        },
        Message::DpiChanged { wparam } => Reaction::Rescale { dpi: (wparam % 0x10000) as u32 },
        Message::Destroy => Reaction::Quit,
        Message::Other => Reaction::Default,
    }
}

/// Whether a message is the hotkey `id`.
pub open spec fn is_hotkey(message: Message, id: u32) -> bool {
    message matches Message::Hotkey { wparam } && wparam as u32 == id
}

/// Whether the overlay is visible after a message.
pub open spec fn visible_after(visible: bool, message: Message) -> bool {
    visible != is_hotkey(message, HOTKEY_TOGGLE)
}

/// The mode after a message.
pub open spec fn mode_after(mode: Mode, message: Message) -> Mode {
    if is_hotkey(message, HOTKEY_MODE) {
        mode.other()
    } else {
        mode
    }
}

/// The state of the overlay.
#[derive(Debug)]
pub struct AppState {
    pub config: Config,
    /// One display row per configured provider, in `sources()` order, followed
    /// by the system block.
    pub lines: Vec<Row>,
    pub visible: bool,
    pub mode: Mode,
    pub metrics: Metrics,
}

impl AppState {
    /// Every line is in its slot, and the load histories are histories.
    pub open spec fn wf(self) -> bool {
        &&& in_slots(self.config, render::model(self.lines@), self.metrics@)
        &&& self.metrics@.wf()
    }

    /// The rows on screen.
    pub open spec fn on_screen(self) -> Seq<RowModel> {
        displayed(self.config, self.mode, render::model(self.lines@))
    }

    /// The state at startup.
    pub fn new(config: Config) -> (state: AppState)
        ensures
            state.wf(),
            state.config == config,
            render::model(state.lines@) == first_lines(config),
            state.visible,
            state.mode == Mode::of_key(config.start_mode@),
            state.metrics@ == MetricsModel::fresh(),
    {
        let list = sources(&config);
        let ghost names = sources_of(config);
        let metrics = Metrics::default();
        let mut lines: Vec<Row> = Vec::new();
        let mut i: usize = 0;
        assert(render::model(lines@) =~= first_lines(config).take(0));
        while i < list.len()
            invariant
                i <= list@.len(),
                source_model(list@) == names,
                names == sources_of(config),
                render::model(lines@) == first_lines(config).take(i as int),
            decreases list@.len() - i,
        {
            assert(names[i as int].0 == list@[i as int].0);
            let row = Row::Text(balance::loading_line(list[i].0));
            proof {
                let all = first_lines(config);
                render::lemma_model_push(lines@, row);
                assert(all.take(i + 1) =~= all.take(i as int).push(all[i as int]));
            }
            lines.push(row);
            i = i + 1;
        }
        if config.show_system {
            let block = metrics.rows();
            assert(render::model(block@)[0] == block@[0]@ && render::model(block@)[1]
                == block@[1]@);
            let cpu = block[0].clone();
            let ram = block[1].clone();
            proof {
                render::lemma_model_push(lines@, cpu);
                render::lemma_model_push(lines@.push(cpu), ram);
            }
            lines.push(cpu);
            lines.push(ram);
        }
        assert(render::model(lines@) =~= first_lines(config));
        assert(config.show_system ==> first_lines(config).skip(names.len() as int)
            =~= MetricsModel::fresh().rows());
        let mode = Mode::from_key(config.start_mode.as_str());
        AppState { config, lines, visible: true, mode, metrics }
    }

    /// What to poll now, and how many seconds to wait after that.
    pub fn poll_plan(&self) -> (plan: (u64, Vec<(Provider, String)>))
        ensures
            plan.0 == refresh_secs(self.config),
            source_model(plan.1@) == sources_of(self.config),
    {
        (self.config.refresh_interval_secs.max(MIN_REFRESH_SECS), sources(&self.config))
    }

    /// Takes the lines that a poll brought, in the order of its plan.
    pub fn store_lines(&mut self, texts: &Vec<String>)
        ensures
            old(self).wf() ==> final(self).wf(),
            render::model(final(self).lines@) == polled(
                old(self).config,
                render::model(old(self).lines@),
                texts_model(texts@),
            ),
            final(self).config == old(self).config,
            final(self).visible == old(self).visible,
            final(self).mode == old(self).mode,
            final(self).metrics == old(self).metrics,
    {
        let ghost before = render::model(self.lines@);
        let ghost new = texts_model(texts@);
        let slots: usize = count_provider_slots(&self.config, self.lines.len());
        let mut i: usize = 0;
        while i < slots && i < texts.len()
            invariant
                i <= slots <= self.lines@.len(),
                i <= texts@.len(),
                self.lines@.len() == before.len(),
                new == texts_model(texts@),
                forall|j: int|
                    0 <= j < before.len() ==> (#[trigger] self.lines@[j])@ == if j < i {
                        RowModel::Text(new[j])
                    } else {
                        before[j]
                    },
                self.config == old(self).config,
                self.visible == old(self).visible,
                self.mode == old(self).mode,
                self.metrics == old(self).metrics,
            decreases texts@.len() - i,
        {
            self.lines.set(i, Row::Text(texts[i].clone()));
            i = i + 1;
        }
        proof {
            assert(render::model(self.lines@) =~= polled(self.config, before, new));
            if in_slots(self.config, before, self.metrics@) {
                lemma_poll_keeps_slots(self.config, before, new, self.metrics@);
            }
        }
    }

    /// Takes note that no request can be made at all: the reason stands in the
    /// first provider's line, if there is a provider.
    pub fn client_failed(&mut self, reason: &str)
        ensures
            old(self).wf() ==> final(self).wf(),
            render::model(final(self).lines@) == if provider_slots(
                old(self).config,
                old(self).lines@.len() as int,
            ) > 0 {
                render::model(old(self).lines@).update(
                    0,
                    RowModel::Text("Client build: "@ + reason@),
                )
            } else {
                render::model(old(self).lines@)
            },
            final(self).config == old(self).config,
            final(self).visible == old(self).visible,
            final(self).mode == old(self).mode,
            final(self).metrics == old(self).metrics,
    {
        let ghost before = render::model(self.lines@);
        let mut texts: Vec<String> = Vec::new();
        texts.push(balance::client_error(reason));
        self.store_lines(&texts);
        proof {
            let row = RowModel::Text("Client build: "@ + reason@);
            if provider_slots(self.config, before.len() as int) > 0 {
                assert(render::model(self.lines@) =~= before.update(0, row));
            } else {
                assert(render::model(self.lines@) =~= before);
            }
        }
    }

    /// Takes a load sample: the histories grow, and the system block shows them.
    pub fn tick(&mut self, times: Option<SystemTimes>, memory: Option<u32>)
        requires
            old(self).metrics@.reading_fits(times),
        ensures
            old(self).wf() ==> final(self).wf(),
            final(self).metrics@ == old(self).metrics@.sampled(times, memory),
            render::model(final(self).lines@) == ticked(
                old(self).config,
                render::model(old(self).lines@),
                final(self).metrics@.rows(),
            ),
            final(self).config == old(self).config,
            final(self).visible == old(self).visible,
            final(self).mode == old(self).mode,
    {
        self.metrics.sample(times, memory);
        let block = self.metrics.rows();
        let ghost before = render::model(self.lines@);
        let ghost rows = render::model(block@);
        let start: usize = count_provider_slots(&self.config, self.lines.len());
        let mut i: usize = start;
        while i < self.lines.len()
            invariant
                start <= i <= self.lines@.len(),
                self.lines@.len() == before.len(),
                start == provider_slots(self.config, before.len() as int),
                rows == render::model(block@),
                rows.len() == 2,
                forall|j: int|
                    0 <= j < before.len() ==> (#[trigger] self.lines@[j])@ == if start <= j < i {
                        rows[j - start]
                    } else {
                        before[j]
                    },
                self.config == old(self).config,
                self.visible == old(self).visible,
                self.mode == old(self).mode,
                self.metrics@ == old(self).metrics@.sampled(times, memory),
                old(self).metrics@.wf() ==> self.metrics@.wf(),
                self.metrics@.rows() == rows,
            decreases self.lines@.len() - i,
        {
            let row = block[i - start].clone();
            assert(rows[i - start] == block@[i - start]@);
            self.lines.set(i, row);
            i = i + 1;
        }
        proof {
            assert(render::model(self.lines@) =~= ticked(self.config, before, rows));
            if in_slots(self.config, before, old(self).metrics@) {
                lemma_tick_keeps_slots(self.config, before, old(self).metrics@, self.metrics@);
            }
        }
    }

    /// The rows on screen.
    pub fn display_rows(&self) -> (rows: Vec<Row>)
        ensures
            render::model(rows@) == self.on_screen(),
    {
        let ghost all = render::model(self.lines@);
        let count: usize = self.lines.len();
        let split: usize = count_provider_slots(&self.config, count);
        let system_mode: bool = self.mode == Mode::System && self.config.show_system;
        let mut rows: Vec<Row> = Vec::new();
        if !system_mode && split == 0 {
            rows.push(Row::Text("NO TOKENS".to_owned()));
            assert(render::model(rows@) =~= seq![RowModel::Text("NO TOKENS"@)]);
            return rows;
        }
        let (from, to): (usize, usize) = if system_mode {
            (split, count)
        } else {
            (0, split)
        };
        let mut i: usize = from;
        assert(render::model(rows@) =~= all.subrange(from as int, from as int));
        while i < to
            invariant
                from <= i <= to <= self.lines@.len(),
                all == render::model(self.lines@),
                render::model(rows@) == all.subrange(from as int, i as int),
            decreases to - i,
        {
            let row = self.lines[i].clone();
            proof {
                render::lemma_model_push(rows@, row);
                assert(all.subrange(from as int, i + 1) =~= all.subrange(
                    from as int,
                    i as int,
                ).push(all[i as int]));
            }
            rows.push(row);
            i = i + 1;
        }
        assert(render::model(rows@) =~= self.on_screen());
        rows
    }

    /// Decides what to do about a message of the window system.
    pub fn wnd_proc(&mut self, message: Message) -> (reaction: Reaction)
        ensures
            reaction == reaction_to(old(self).visible, message),
            final(self).visible == visible_after(old(self).visible, message),
            final(self).mode == mode_after(old(self).mode, message),
            final(self).config == old(self).config,
            final(self).lines == old(self).lines,
            final(self).metrics == old(self).metrics,
            old(self).wf() ==> final(self).wf(),
    {
        match message {
            Message::Paint => Reaction::Validate,
            Message::EraseBackground => Reaction::Erased,
            Message::Hotkey { wparam } => {
                let id: u32 = wparam as u32;
                if id == HOTKEY_TOGGLE {
                    let visible: bool = self.visible;
                    self.visible = !visible;
                    if visible {
                        Reaction::Hide
                    } else {
                        Reaction::Show
                    }
                } else if id == HOTKEY_EXIT {
                    Reaction::Close
                } else if id == HOTKEY_MODE {
                    self.mode = self.mode.switched();
                    Reaction::Redraw
                } else {
                    Reaction::Nothing
                }
            },
            Message::UpdateDisplay => Reaction::Redraw,
            Message::Timer { wparam } => {
                if wparam == TIMER_SYSTEM {
                    Reaction::Sample
                } else {
                    Reaction::Nothing
                }
            },
            Message::DpiChanged { wparam } => {
                assert(wparam & 0xFFFF == wparam % 0x10000) by (bit_vector);
                Reaction::Rescale { dpi: (wparam & 0xFFFF) as u32 }
            },
            Message::Destroy => Reaction::Quit,
            Message::Other => Reaction::Default,
        }
    }
}

/// What a list of texts says.
pub open spec fn texts_model(texts: Seq<String>) -> Seq<Seq<char>> {
    Seq::new(texts.len(), |i: int| texts[i]@)
}

proof fn lemma_poll_keeps_slots(
    cfg: Config,
    lines: Seq<RowModel>,
    texts: Seq<Seq<char>>,
    metrics: MetricsModel,
)
    requires
        in_slots(cfg, lines, metrics),
    ensures
        in_slots(cfg, polled(cfg, lines, texts), metrics),
{
    let n = sources_of(cfg).len() as int;
    let after = polled(cfg, lines, texts);
    assert(after.skip(n) =~= lines.skip(n));
    assert forall|i: int| 0 <= i < n implies (#[trigger] after[i]) is Text by {
        assert(lines[i] is Text);
    }
}

proof fn lemma_tick_keeps_slots(
    cfg: Config,
    lines: Seq<RowModel>,
    before: MetricsModel,
    after: MetricsModel,
)
    requires
        in_slots(cfg, lines, before),
    ensures
        in_slots(cfg, ticked(cfg, lines, after.rows()), after),
{
    let n = sources_of(cfg).len() as int;
    let next = ticked(cfg, lines, after.rows());
    assert forall|i: int| 0 <= i < n implies (#[trigger] next[i]) is Text by {
        assert(lines[i] is Text);
    }
    if cfg.show_system {
        assert(next.skip(n) =~= after.rows());
    }
}

/// Whether a provider is configured: its token is more than white space.
pub open spec fn has_token(cfg: Config, provider: Provider) -> bool {
    let token = match provider {
        Provider::DeepSeek => cfg.deepseek_token@,
        Provider::OpenRouter => cfg.openrouter_token@,
        Provider::ProxyApi => cfg.proxyapi_token@,
    };
    text::trimmed(token).len() > 0
}

/// A provider is polled and shown exactly if it has a token; one without is
/// skipped entirely.
pub proof fn law_only_configured_providers_are_listed(cfg: Config, provider: Provider)
    ensures
        has_token(cfg, provider) <==> exists|i: int|
            0 <= i < sources_of(cfg).len() && (#[trigger] sources_of(cfg)[i]).0 == provider,
        forall|i: int|
            0 <= i < sources_of(cfg).len() ==> (#[trigger] sources_of(cfg)[i]).1.len() > 0,
{
    let a = source_of(Provider::DeepSeek, cfg.deepseek_token@);
    let b = source_of(Provider::OpenRouter, cfg.openrouter_token@);
    let c = source_of(Provider::ProxyApi, cfg.proxyapi_token@);
    let all = sources_of(cfg);
    assert(all =~= a + b + c);
    if has_token(cfg, provider) {
        match provider {
            Provider::DeepSeek => {
                assert(all[0].0 == provider);
            },
            Provider::OpenRouter => {
                assert(all[a.len() as int].0 == provider);
            },
            Provider::ProxyApi => {
                assert(all[(a.len() + b.len()) as int].0 == provider);
            },
        }
    }
}

/// Providers are listed in the alphabetical order of their labels, each at most
/// once: the first letters go up.
pub proof fn law_providers_are_listed_alphabetically(cfg: Config, i: int, j: int)
    requires
        0 <= i < j < sources_of(cfg).len(),
    ensures
        sources_of(cfg)[i].0.label_chars()[0] < sources_of(cfg)[j].0.label_chars()[0],
{
    reveal_strlit("DEEPSEEK");
    reveal_strlit("OPENROUTER");
    reveal_strlit("PROXYAPI");
    let a = source_of(Provider::DeepSeek, cfg.deepseek_token@);
    let b = source_of(Provider::OpenRouter, cfg.openrouter_token@);
    let c = source_of(Provider::ProxyApi, cfg.proxyapi_token@);
    assert(sources_of(cfg) =~= a + b + c);
}

/// There is always something on screen.
pub proof fn law_the_screen_is_never_empty(state: AppState)
    requires
        state.wf(),
    ensures
        state.on_screen().len() > 0,
{
}

/// The overlay shows one thing at a time: in the system mode the charts of the
/// load histories and nothing else, in the balance mode the providers' lines,
/// all of them text, and nothing else, and a notice if there are none.
pub proof fn law_one_thing_at_a_time(state: AppState)
    requires
        state.wf(),
        state.config.show_system,
    ensures
        ({
            let lines = render::model(state.lines@);
            let providers = sources_of(state.config).len();
            match state.mode {
                Mode::System => state.on_screen() == state.metrics@.rows(),
                Mode::Balances => if providers > 0 {
                    &&& state.on_screen() == lines.take(providers as int)
                    &&& state.on_screen().len() == providers
                    &&& forall|i: int|
                        0 <= i < providers ==> (#[trigger] state.on_screen()[i]) is Text
                } else {
                    state.on_screen() == seq![RowModel::Text("NO TOKENS"@)]
                },
            }
        }),
{
    let lines = render::model(state.lines@);
    let n = sources_of(state.config).len() as int;
    if state.mode == Mode::Balances && n > 0 {
        assert(state.on_screen() =~= lines.take(n));
        assert forall|i: int| 0 <= i < n implies (#[trigger] state.on_screen()[i]) is Text by {
            assert(lines[i] is Text);
        }
    }
}

/// Without a system block the overlay shows the providers' lines in either mode.
pub proof fn law_without_a_system_block_there_are_only_balances(state: AppState)
    requires
        state.wf(),
        !state.config.show_system,
    ensures
        state.on_screen() == if sources_of(state.config).len() > 0 {
            render::model(state.lines@)
        } else {
            seq![RowModel::Text("NO TOKENS"@)]
        },
{
    let lines = render::model(state.lines@);
    assert(lines.take(lines.len() as int) =~= lines);
}

/// Without any settings the overlay comes up with both charts, still empty.
pub proof fn law_default_settings_show_the_charts(cfg: Config)
    requires
        cfg.is_default(),
    ensures
        displayed(cfg, Mode::of_key(cfg.start_mode@), first_lines(cfg))
            == MetricsModel::fresh().rows(),
        sources_of(cfg).len() == 0,
{
    crate::config::law_default_settings_open_in_system_mode(cfg);
    assert(displayed(cfg, Mode::System, first_lines(cfg)) =~= MetricsModel::fresh().rows());
}

/// Each writer keeps to its slots. A poll never touches the system block,
/// whatever it brings, and if it answers its plan it replaces every provider's
/// line; a tick replaces the system block and never touches a provider's line;
/// so it does not matter which of them comes first.
pub proof fn law_writers_keep_to_their_slots(
    cfg: Config,
    lines: Seq<RowModel>,
    texts: Seq<Seq<char>>,
    block: Seq<RowModel>,
)
    requires
        lines.len() == first_lines(cfg).len(),
        block.len() == system::LINE_COUNT,
    ensures
        ({
            let n = sources_of(cfg).len() as int;
            &&& polled(cfg, lines, texts).skip(n) == lines.skip(n)
            &&& texts.len() >= n ==> forall|i: int|
                0 <= i < n ==> #[trigger] polled(cfg, lines, texts)[i] == RowModel::Text(texts[i])
            &&& ticked(cfg, lines, block).take(n) == lines.take(n)
            &&& cfg.show_system ==> ticked(cfg, lines, block).skip(n) == block
            &&& ticked(cfg, polled(cfg, lines, texts), block) == polled(
                cfg,
                ticked(cfg, lines, block),
                texts,
            )
        }),
{
    let n = sources_of(cfg).len() as int;
    assert(polled(cfg, lines, texts).skip(n) =~= lines.skip(n));
    assert(ticked(cfg, lines, block).take(n) =~= lines.take(n));
    if cfg.show_system {
        assert(ticked(cfg, lines, block).skip(n) =~= block);
    }
    assert(ticked(cfg, polled(cfg, lines, texts), block) =~= polled(
        cfg,
        ticked(cfg, lines, block),
        texts,
    ));
}

/// When no request can be made at all, the reason takes the place of the first
/// provider's line and of nothing else; without providers, of nothing at all.
pub proof fn law_client_failure_takes_the_first_provider_line(
    cfg: Config,
    lines: Seq<RowModel>,
    reason: Seq<char>,
)
    requires
        lines.len() == first_lines(cfg).len(),
    ensures
        polled(cfg, lines, seq![reason]) == if sources_of(cfg).len() > 0 {
            lines.update(0, RowModel::Text(reason))
        } else {
            lines
        },
{
    if sources_of(cfg).len() > 0 {
        assert(polled(cfg, lines, seq![reason]) =~= lines.update(0, RowModel::Text(reason)));
    } else {
        assert(polled(cfg, lines, seq![reason]) =~= lines);
    }
}

/// Sampling goes on whatever is on screen: after a tick, in either mode, the
/// system mode would show the histories up to that very tick.
pub proof fn law_charts_are_current_in_either_mode(
    cfg: Config,
    lines: Seq<RowModel>,
    metrics: MetricsModel,
    times: Option<SystemTimes>,
    memory: Option<u32>,
)
    requires
        cfg.show_system,
        lines.len() == first_lines(cfg).len(),
    ensures
        ({
            let after = metrics.sampled(times, memory);
            displayed(cfg, Mode::System, ticked(cfg, lines, after.rows())) == after.rows()
        }),
{
    let after = metrics.sampled(times, memory);
    assert(displayed(cfg, Mode::System, ticked(cfg, lines, after.rows())) =~= after.rows());
}

/// In the balance mode a poll is on screen as it came in.
pub proof fn law_balances_are_shown_as_polled(
    cfg: Config,
    lines: Seq<RowModel>,
    texts: Seq<Seq<char>>,
)
    requires
        lines.len() == first_lines(cfg).len(),
        texts.len() == sources_of(cfg).len(),
        texts.len() > 0,
    ensures
        displayed(cfg, Mode::Balances, polled(cfg, lines, texts)) == Seq::new(
            texts.len(),
            |i: int| RowModel::Text(texts[i]),
        ),
{
    assert(displayed(cfg, Mode::Balances, polled(cfg, lines, texts)) =~= Seq::new(
        texts.len(),
        |i: int| RowModel::Text(texts[i]),
    ));
}

/// The show/hide hotkey undoes itself and leaves the mode alone; so does the
/// mode hotkey, and it leaves the visibility alone.
pub proof fn law_hotkeys_undo_themselves(visible: bool, mode: Mode, message: Message)
    requires
        is_hotkey(message, HOTKEY_TOGGLE) || is_hotkey(message, HOTKEY_MODE),
    ensures
        visible_after(visible_after(visible, message), message) == visible,
        mode_after(mode_after(mode, message), message) == mode,
        visible_after(visible, message) != visible <==> is_hotkey(message, HOTKEY_TOGGLE),
        mode_after(mode, message) != mode <==> is_hotkey(message, HOTKEY_MODE),
{
}

/// Balance polls are never closer than five seconds apart, and otherwise as far
/// apart as configured.
pub proof fn law_polls_are_at_least_five_seconds_apart(cfg: Config)
    ensures
        refresh_secs(cfg) >= 5,
        cfg.refresh_interval_secs >= 5 ==> refresh_secs(cfg) == cfg.refresh_interval_secs,
{
}

/// A listed provider comes with its own token, without the white space around
/// it.
pub proof fn law_providers_are_polled_with_their_own_token(cfg: Config, i: int)
    requires
        0 <= i < sources_of(cfg).len(),
    ensures
        sources_of(cfg)[i].1 == text::trimmed(
            match sources_of(cfg)[i].0 {
                Provider::DeepSeek => cfg.deepseek_token@,
                Provider::OpenRouter => cfg.openrouter_token@,
                Provider::ProxyApi => cfg.proxyapi_token@,
            },
        ),
{
    let a = source_of(Provider::DeepSeek, cfg.deepseek_token@);
    let b = source_of(Provider::OpenRouter, cfg.openrouter_token@);
    let c = source_of(Provider::ProxyApi, cfg.proxyapi_token@);
    assert(sources_of(cfg) =~= a + b + c);
}

/// At startup there is a waiting line for each provider in order, under its own
/// name, and after them, if there is a system block, its two charts.
pub proof fn law_startup_has_a_line_for_everything(cfg: Config, i: int)
    ensures
        ({
            let n = sources_of(cfg).len() as int;
            let lines = first_lines(cfg);
            &&& lines.len() == n + if cfg.show_system {
                2int
            } else {
                0
            }
            &&& 0 <= i < n ==> lines[i] == RowModel::Text(
                sources_of(cfg)[i].0.label_chars() + ": LOADING..."@,
            )
            &&& cfg.show_system ==> {
                &&& lines[n] matches RowModel::Graph { label, percent, history, .. }
                &&& label == "CPU"@
                &&& percent is None
                &&& history.len() == 0
            }
            &&& cfg.show_system ==> {
                &&& lines[n + 1] matches RowModel::Graph { label, percent, history, .. }
                &&& label == "RAM"@
                &&& percent is None
                &&& history.len() == 0
            }
        }),
{
}

/// A provider whose answer a poll does not bring keeps the line it had.
pub proof fn law_short_polls_leave_the_other_lines(
    cfg: Config,
    lines: Seq<RowModel>,
    texts: Seq<Seq<char>>,
    i: int,
)
    requires
        lines.len() == first_lines(cfg).len(),
        0 <= i < lines.len(),
    ensures
        polled(cfg, lines, texts).len() == lines.len(),
        i >= texts.len() ==> polled(cfg, lines, texts)[i] == lines[i],
        i < texts.len() && i < sources_of(cfg).len() ==> polled(cfg, lines, texts)[i]
            == RowModel::Text(texts[i]),
        i >= sources_of(cfg).len() ==> polled(cfg, lines, texts)[i] == lines[i],
{
}

/// The three hotkeys, by number, which is the low half of a 64-bit word: the
/// first shows the overlay if it is hidden and hides it if it is not, the second
/// closes it, the third redraws it in the other mode, and any other does nothing.
pub proof fn law_hotkeys_do_one_thing_each(visible: bool, mode: Mode, wparam: usize)
    ensures
        ({
            let message = Message::Hotkey { wparam };
            let reaction = reaction_to(visible, message);
            let id = wparam as int % 0x1_0000_0000;
            &&& id == 1 ==> reaction == if visible {
                Reaction::Hide
            } else {
                Reaction::Show
            }
            &&& id == 2 ==> reaction == Reaction::Close
            &&& id == 3 ==> reaction == Reaction::Redraw
            &&& id == 0 || id > 3 ==> reaction == Reaction::Nothing
            &&& visible_after(visible, message) == if id == 1 {
                !visible
            } else {
                visible
            }
            &&& mode_after(mode, message) == if id != 3 {
                mode
            } else if mode == Mode::System {
                Mode::Balances
            } else {
                Mode::System
            }
        }),
{
    assert(wparam as u32 == wparam as u64 % 0x1_0000_0000) by (bit_vector);
}

/// Only hotkeys change what is visible or the mode, and every other message has
/// its one reaction, visible or not: the first timer samples and no other timer
/// does anything, and a new scale is the low half of its word.
pub proof fn law_messages_have_one_reaction_each(
    visible: bool,
    mode: Mode,
    message: Message,
    wparam: usize,
    high: usize,
    low: usize,
)
    requires
        low < 65536,
        high * 65536 + low <= usize::MAX,
    ensures
        !(message is Hotkey) ==> visible_after(visible, message) == visible,
        !(message is Hotkey) ==> mode_after(mode, message) == mode,
        reaction_to(visible, Message::Paint) == Reaction::Validate,
        reaction_to(visible, Message::EraseBackground) == Reaction::Erased,
        reaction_to(visible, Message::UpdateDisplay) == Reaction::Redraw,
        reaction_to(visible, Message::Timer { wparam }) == if wparam == 1 {
            Reaction::Sample
        } else {
            Reaction::Nothing
        },
        reaction_to(visible, Message::DpiChanged { wparam: (high * 65536 + low) as usize })
            == (Reaction::Rescale { dpi: low as u32 }),
        reaction_to(visible, Message::Destroy) == Reaction::Quit,
        reaction_to(visible, Message::Other) == Reaction::Default,
{
    assert((high * 65536 + low) % 65536 == low);
}

} // verus!
