use vstd::prelude::*;
use vstd::string::StringExecFns;
use crate::store::{names_view, StoreModel, holds, Entity, Kind, PropertyError, PropertyStore, SlotModel, Value, ValueModel, assign, is_live, read_as};
use crate::world::{KeyDownHandler, Phase, World};

verus! {

/// A key press as the shell reports it.
#[derive(Clone, Copy, Debug, PartialEq, Eq, Structural)]
pub struct KeyEvent {
    pub key: u32,
    pub pressed: bool,
}

/// What a password box still has to act on.
#[derive(Clone, Copy, Debug, PartialEq, Eq, Structural)]
pub enum PasswordAction {
    Key(KeyEvent),
}

/// The masked form of `text`: one `echo` for each of its characters.
pub open spec fn masked(text: Seq<char>, echo: char) -> Seq<char> {
    Seq::new(text.len(), |i: int| echo)
}

/// The masked form keeps the length of the text and holds nothing but the
/// echo character.
pub proof fn lemma_masked_shape(text: Seq<char>, echo: char)
    ensures
        masked(text, echo).len() == text.len(),
        forall|i: int| 0 <= i < text.len() ==> #[trigger] masked(text, echo)[i] == echo,
{
}

/// Builds the masked form of `text`.
pub fn mask_text(text: &Vec<char>, echo: char) -> (r: Vec<char>)
    ensures
        r@ == masked(text@, echo),
{
    let mut r: Vec<char> = Vec::new();
    let mut i: usize = 0;
    while i < text.len()
        invariant
            i <= text@.len(),
            r@ == masked(text@.subrange(0, i as int), echo),
        decreases text@.len() - i,
    {
        r.push(echo);
        i = i + 1;
        assert(r@ =~= masked(text@.subrange(0, i as int), echo));
    }
    assert(text@.subrange(0, i as int) =~= text@);
    r
}

/// The name of a property, as a `String`.
pub fn key(s: &str) -> (r: String)
    ensures
        r@ == s@,
{
    String::from_str(s)
}

/// The characters of `s`, as a text value.
pub fn text_of(s: &str) -> (r: Vec<char>)
    ensures
        r@ == s@,
{
    let n = s.unicode_len();
    let mut r: Vec<char> = Vec::new();
    let mut i: usize = 0;
    while i < n
        invariant
            n == s@.len(),
            i <= n,
            r@ == s@.subrange(0, i as int),
        decreases n - i,
    {
        r.push(s.get_char(i));
        i = i + 1;
        assert(r@ =~= s@.subrange(0, i as int));
    }
    assert(s@.subrange(0, n as int) =~= s@);
    r
}

/// The state of a password box: the key action it has still to handle, and
/// the echo character copied from its `echo` property at `init`.
#[derive(Debug)]
pub struct PasswordBoxState {
    pub action: Option<PasswordAction>,
    pub echo: char,
}

impl PasswordBoxState {
    /// A state with nothing to do and `*` as echo character.
    pub fn new() -> (r: PasswordBoxState)
        ensures
            r.action is None,
            r.echo == '*',
    {
        PasswordBoxState { action: None, echo: '*' }
    }

    /// Records `action` for the next `update`.
    pub fn action(&mut self, action: PasswordAction)
        ensures
            final(self).action == Some(action),
            final(self).echo == old(self).echo,
    {
        self.action = Some(action);
    }

    /// Writes to property `mask` of `id` the masked form of its `text`.
    pub fn mask(&mut self, store: &mut PropertyStore, id: Entity) -> (r: Result<(), PropertyError>)
        requires
            old(store).wf(),
        ensures
            final(store).wf(),
            final(store)@.len() == old(store)@.len(),
            final(self).action == old(self).action,
            final(self).echo == old(self).echo,
            mask_outcome(old(store)@, id, old(self).echo, r, final(store)@),
    {
        proof {
            reveal_strlit("text");
            reveal_strlit("mask");
        }
        let text_name = key("text");
        let text = match store.get(id, &text_name, Kind::Text) {
            Ok(Value::Text(t)) => mask_text(t, self.echo),
            Ok(_) => {
                return Err(PropertyError::TypeMismatch);
            },
            Err(x) => {
                return Err(x);
            },
        };
        store.set(id, key("mask"), Value::Text(text))
    }

    /// Copies the `echo` property of `id` into the state, so that later
    /// changes of the property do not change the masking.
    pub fn init(&mut self, store: &PropertyStore, id: Entity) -> (r: Result<(), PropertyError>)
        requires
            store.wf(),
        ensures
            final(self).action == old(self).action,
            match read_as(store@, id, "echo"@, Kind::Char) {
                Ok(ValueModel::Char(c)) => r == Ok::<(), PropertyError>(()) && final(self).echo == c,
                Ok(_) => r == Err::<(), PropertyError>(PropertyError::TypeMismatch)
                    && final(self).echo == old(self).echo,
                Err(x) => r == Err::<(), PropertyError>(x) && final(self).echo == old(self).echo,
            },
    {
        proof {
            reveal_strlit("echo");
        }
        match store.clone(id, &key("echo"), Kind::Char) {
            Ok(Value::Char(c)) => {
                self.echo = c;
                Ok(())
            },
            Ok(_) => Err(PropertyError::TypeMismatch),
            Err(x) => Err(x),
        }
    }

    /// Acts on the pending action, if any, and clears it: a key press masks
    /// the text again. With no pending action the store is left untouched.
    pub fn update(&mut self, store: &mut PropertyStore, id: Entity) -> (r: Result<(), PropertyError>)
        requires
            old(store).wf(),
        ensures
            final(store).wf(),
            final(store)@.len() == old(store)@.len(),
            final(self).action is None,
            final(self).echo == old(self).echo,
            old(self).action is None ==> r == Ok::<(), PropertyError>(()) && final(store)@ == old(store)@,
            old(self).action is Some ==> mask_outcome(old(store)@, id, old(self).echo, r, final(store)@),
    {
        let r = match self.action {
            Some(PasswordAction::Key(_)) => self.mask(store, id),
            None => Ok(()),
        };
        self.action = None;
        r
    }
}

/// What `mask` does to a store `m`: the text read from `text` of `id`,
/// masked with `echo`, is written to `mask` of `id`; a failed read or write
/// leaves the store as it was. Gives the result and the new store.
pub open spec fn mask_result(m: StoreModel, id: Entity, echo: char) -> (Result<(), PropertyError>, StoreModel) {
    match read_as(m, id, "text"@, Kind::Text) {
        Ok(ValueModel::Text(t)) => match assign(m, id, "mask"@, ValueModel::Text(masked(t, echo))) {
            Ok(m3) => (Ok(()), m3),
            Err(x) => (Err(x), m),
        },
        Ok(_) => (Err(PropertyError::TypeMismatch), m),
        Err(x) => (Err(x), m),
    }
}

/// `mask` on store `m` gave `r` and left store `m2`.
pub open spec fn mask_outcome(m: StoreModel, id: Entity, echo: char, r: Result<(), PropertyError>, m2: StoreModel) -> bool {
    (r, m2) == mask_result(m, id, echo)
}

/// A text box that masks its input: the widget keeps the typed text in its
/// `text` property and shows, through a text block bound to its `mask`
/// property, one echo character per typed character. Values left unset here
/// take the template's defaults.
#[derive(Debug)]
pub struct PasswordBox {
    pub echo: Option<char>,
    pub text: Option<Vec<char>>,
    pub water_mark: Option<Vec<char>>,
}

/// The entities that the password box template creates below the box.
#[derive(Clone, Copy, Debug, PartialEq, Eq, Structural)]
pub struct PasswordBoxParts {
    pub text_behavior: Entity,
    pub container: Entity,
    pub grid: Entity,
    pub cursor: Entity,
    pub text_block: Entity,
}

impl PasswordBox {
    /// A password box declaration with every value left to the template.
    pub fn new() -> (r: PasswordBox)
        ensures
            r.echo is None,
            r.text is None,
            r.water_mark is None,
    {
        PasswordBox { echo: None, text: None, water_mark: None }
    }

    /// Sets the echo character.
    pub fn echo(self, echo: char) -> (r: PasswordBox)
        ensures
            r.echo == Some(echo),
            r.text == self.text,
            r.water_mark == self.water_mark,
    {
        PasswordBox { echo: Some(echo), ..self }
    }

    /// Sets the initial text.
    pub fn text(self, text: Vec<char>) -> (r: PasswordBox)
        ensures
            r.echo == self.echo,
            r.text == Some(text),
            r.water_mark == self.water_mark,
    {
        PasswordBox { text: Some(text), ..self }
    }

    /// Sets the text shown while the box is empty.
    pub fn water_mark(self, water_mark: Vec<char>) -> (r: PasswordBox)
        ensures
            r.echo == self.echo,
            r.text == self.text,
            r.water_mark == Some(water_mark),
    {
        PasswordBox { water_mark: Some(water_mark), ..self }
    }

    /// Builds the sub-tree of the box `id`: a text behavior and a container
    /// as its children, a grid in the container, and in the grid a cursor
    /// first and then the text block, which must come after the cursor. The
    /// text block's `text` refers to the box's `mask`; the other bindings
    /// refer to the box's properties of the same name. The box gets its own
    /// values, an uninitialized state object and a key-down handler.
    pub fn template(self, id: Entity, ctx: &mut World) -> (r: PasswordBoxParts)
        requires
            old(ctx).wf(),
            is_live(old(ctx).store@, id),
            old(ctx).store@.len() + 5 < u32::MAX,
        ensures
            final(ctx).wf(),
            r.text_behavior.0 == old(ctx).store@.len(),
            r.container.0 == old(ctx).store@.len() + 1,
            r.grid.0 == old(ctx).store@.len() + 2,
            r.cursor.0 == old(ctx).store@.len() + 3,
            r.text_block.0 == old(ctx).store@.len() + 4,
            final(ctx).store@.len() == old(ctx).store@.len() + 5,
            final(ctx).tree@.len() == old(ctx).tree@.len() + 5,
            final(ctx).tree@[id.0 as int].children == old(ctx).tree@[id.0 as int].children.push(
                r.text_behavior,
            ).push(r.container),
            final(ctx).tree@[id.0 as int].parent == old(ctx).tree@[id.0 as int].parent,
            final(ctx).tree@[r.text_behavior.0 as int].parent == Some(id),
            final(ctx).tree@[r.text_behavior.0 as int].children == Seq::<Entity>::empty(),
            final(ctx).tree@[r.container.0 as int].parent == Some(id),
            final(ctx).tree@[r.container.0 as int].children == seq![r.grid],
            final(ctx).tree@[r.grid.0 as int].parent == Some(r.container),
            final(ctx).tree@[r.grid.0 as int].children == seq![r.cursor, r.text_block],
            final(ctx).tree@[r.cursor.0 as int].parent == Some(r.grid),
            final(ctx).tree@[r.cursor.0 as int].children == Seq::<Entity>::empty(),
            final(ctx).tree@[r.text_block.0 as int].parent == Some(r.grid),
            final(ctx).tree@[r.text_block.0 as int].children == Seq::<Entity>::empty(),
            forall|k: int| 0 <= k < old(ctx).tree@.len() && k != id.0 ==> #[trigger] final(ctx).tree@[k] == old(ctx).tree@[k],
            forall|k: int| 0 <= k < old(ctx).store@.len() && k != id.0 ==> #[trigger] final(ctx).store@[k] == old(ctx).store@[k],
            box_values(
                final(ctx).store@,
                id,
                match self.echo {
                    Some(c) => c,
                    None => '*',
                },
                match self.text {
                    Some(t) => t@,
                    None => Seq::empty(),
                },
                match self.water_mark {
                    Some(w) => w@,
                    None => "Password"@,
                },
            ),
            text_block_wired(final(ctx).store@, id, r.text_block),
            cursor_wired(final(ctx).store@, id, r.cursor, r.text_block),
            text_behavior_wired(final(ctx).store@, id, r.text_behavior, r.cursor),
            container_wired(final(ctx).store@, id, r.container),
            grid_wired(final(ctx).store@, r.grid),
            final(ctx).states@[id.0 as int] matches Some(s) && s.spec_phase() == Phase::Uninitialized
                && s.spec_state().action is None && s.spec_hooks().len() == 0,
            forall|k: int| 0 <= k < old(ctx).states@.len() && k != id.0 ==> #[trigger] final(ctx).states@[k] == old(ctx).states@[k],
            final(ctx).handlers@ == old(ctx).handlers@.update(id.0 as int, Some(KeyDownHandler { target: id })).push(None).push(
                None,
            ).push(None).push(None).push(None),
    {
        let text_behavior = ctx.create(Some(id));
        let container = ctx.create(Some(id));
        let grid = ctx.create(Some(container));
        let cursor = ctx.create(Some(grid));
        let text_block = ctx.create(Some(grid));
        wire_text_block(ctx, id, text_block);
        wire_cursor(ctx, id, cursor, text_block);
        wire_text_behavior(ctx, id, text_behavior, cursor);
        wire_container(ctx, id, container);
        wire_grid(ctx, grid);
        let water_mark = match self.water_mark {
            Some(w) => w,
            None => text_of("Password"),
        };
        let text = match self.text {
            Some(t) => t,
            None => Vec::new(),
        };
        let echo = match self.echo {
            Some(c) => c,
            None => '*',
        };
        put_box_values(ctx, id, water_mark, text, echo);
        ctx.attach_state(id, PasswordBoxState::new());
        assert(ctx.handlers@ =~= old(ctx).handlers@.update(id.0 as int, Some(KeyDownHandler { target: id })).push(None).push(
                None,
            ).push(None).push(None).push(None));
        PasswordBoxParts { text_behavior, container, grid, cursor, text_block }
    }

    /// Creates the box under `parent` and builds its sub-tree.
    pub fn build(self, ctx: &mut World, parent: Option<Entity>) -> (r: (Entity, PasswordBoxParts))
        requires
            old(ctx).wf(),
            old(ctx).store@.len() + 6 < u32::MAX,
            parent matches Some(p) ==> is_live(old(ctx).store@, p),
        ensures
            final(ctx).wf(),
            r.0.0 == old(ctx).store@.len(),
            r.1.text_behavior.0 == old(ctx).store@.len() + 1,
            r.1.container.0 == old(ctx).store@.len() + 2,
            r.1.grid.0 == old(ctx).store@.len() + 3,
            r.1.cursor.0 == old(ctx).store@.len() + 4,
            r.1.text_block.0 == old(ctx).store@.len() + 5,
            final(ctx).tree@[r.0.0 as int].parent == parent,
            final(ctx).tree@[r.0.0 as int].children == seq![r.1.text_behavior, r.1.container],
            final(ctx).tree@[r.1.container.0 as int].children == seq![r.1.grid],
            final(ctx).tree@[r.1.grid.0 as int].children == seq![r.1.cursor, r.1.text_block],
            parent matches Some(p) ==> final(ctx).tree@[p.0 as int].children == old(ctx).tree@[p.0 as int].children.push(r.0),
            forall|k: int| 0 <= k < old(ctx).store@.len() ==> #[trigger] final(ctx).store@[k] == old(ctx).store@[k],
            box_values(
                final(ctx).store@,
                r.0,
                match self.echo {
                    Some(c) => c,
                    None => '*',
                },
                match self.text {
                    Some(t) => t@,
                    None => Seq::empty(),
                },
                match self.water_mark {
                    Some(w) => w@,
                    None => "Password"@,
                },
            ),
            text_block_wired(final(ctx).store@, r.0, r.1.text_block),
            cursor_wired(final(ctx).store@, r.0, r.1.cursor, r.1.text_block),
            text_behavior_wired(final(ctx).store@, r.0, r.1.text_behavior, r.1.cursor),
            container_wired(final(ctx).store@, r.0, r.1.container),
            grid_wired(final(ctx).store@, r.1.grid),
            final(ctx).states@[r.0.0 as int] matches Some(s) && s.spec_phase() == Phase::Uninitialized
                && s.spec_state().action is None,
            final(ctx).handlers@[r.0.0 as int] == Some(KeyDownHandler { target: r.0 }),
    {
        let id = ctx.create(parent);
        let parts = self.template(id, ctx);
        (id, parts)
    }
}

/// The box's own values; changes of its `text` and `mask` are the ones
/// reported to the widget.
pub open spec fn box_values(m: StoreModel, id: Entity, echo: char, text: Seq<char>, water_mark: Seq<char>) -> bool {
    &&& holds(m, id, "name"@, SlotModel::Owned(ValueModel::Text("PasswordBox"@)))
    &&& holds(m, id, "style"@, SlotModel::Owned(ValueModel::Text("text_box"@)))
    &&& holds(m, id, "water_mark"@, SlotModel::Owned(ValueModel::Text(water_mark)))
    &&& holds(m, id, "foreground"@, SlotModel::Owned(ValueModel::Text("link_water"@)))
    &&& holds(m, id, "font"@, SlotModel::Owned(ValueModel::Text("Roboto-Regular"@)))
    &&& holds(m, id, "background"@, SlotModel::Owned(ValueModel::Text("lynch"@)))
    &&& holds(m, id, "border_brush"@, SlotModel::Owned(ValueModel::Text("transparent"@)))
    &&& holds(m, id, "focused"@, SlotModel::Owned(ValueModel::Bool(false)))
    &&& holds(m, id, "lost_focus_on_activation"@, SlotModel::Owned(ValueModel::Bool(true)))
    &&& holds(m, id, "request_focus"@, SlotModel::Owned(ValueModel::Bool(false)))
    &&& holds(m, id, "text"@, SlotModel::Owned(ValueModel::Text(text)))
    &&& holds(m, id, "mask"@, SlotModel::Owned(ValueModel::Text(Seq::empty())))
    &&& holds(m, id, "echo"@, SlotModel::Owned(ValueModel::Char(echo)))
    &&& holds(m, id, "text_selection_start"@, SlotModel::Owned(ValueModel::Int(0)))
    &&& holds(m, id, "text_selection_length"@, SlotModel::Owned(ValueModel::Int(0)))
    &&& holds(m, id, "on_changed_filter"@, SlotModel::Owned(ValueModel::Names(seq!["text"@, "mask"@])))
}

/// The text block shows the box's mask, with the box's look.
pub open spec fn text_block_wired(m: StoreModel, id: Entity, tb: Entity) -> bool {
    &&& holds(m, tb, "v_align"@, SlotModel::Owned(ValueModel::Text("center"@)))
    &&& holds(m, tb, "h_align"@, SlotModel::Owned(ValueModel::Text("start"@)))
    &&& holds(m, tb, "foreground"@, SlotModel::Shared(id, "foreground"@))
    &&& holds(m, tb, "water_mark"@, SlotModel::Shared(id, "water_mark"@))
    &&& holds(m, tb, "font"@, SlotModel::Shared(id, "font"@))
    &&& holds(m, tb, "text"@, SlotModel::Shared(id, "mask"@))
}

/// The cursor knows its text block and shares the box's focus and text
/// selection (its start and length).
pub open spec fn cursor_wired(m: StoreModel, id: Entity, cursor: Entity, tb: Entity) -> bool {
    &&& holds(m, cursor, "h_align"@, SlotModel::Owned(ValueModel::Text("start"@)))
    &&& holds(m, cursor, "text_block"@, SlotModel::Owned(ValueModel::Entity(tb)))
    &&& holds(m, cursor, "focused"@, SlotModel::Shared(id, "focused"@))
    &&& holds(m, cursor, "text_selection_start"@, SlotModel::Shared(id, "text_selection_start"@))
    &&& holds(m, cursor, "text_selection_length"@, SlotModel::Shared(id, "text_selection_length"@))
}

/// The text behavior edits the box's text through the cursor.
pub open spec fn text_behavior_wired(m: StoreModel, id: Entity, tbh: Entity, cursor: Entity) -> bool {
    &&& holds(m, tbh, "cursor"@, SlotModel::Owned(ValueModel::Entity(cursor)))
    &&& holds(m, tbh, "target"@, SlotModel::Owned(ValueModel::Entity(id)))
    &&& holds(m, tbh, "focused"@, SlotModel::Shared(id, "focused"@))
    &&& holds(m, tbh, "font"@, SlotModel::Shared(id, "font"@))
    &&& holds(m, tbh, "lost_focus_on_activation"@, SlotModel::Shared(id, "lost_focus_on_activation"@))
    &&& holds(m, tbh, "request_focus"@, SlotModel::Shared(id, "request_focus"@))
    &&& holds(m, tbh, "text"@, SlotModel::Shared(id, "text"@))
    &&& holds(m, tbh, "text_selection_start"@, SlotModel::Shared(id, "text_selection_start"@))
    &&& holds(m, tbh, "text_selection_length"@, SlotModel::Shared(id, "text_selection_length"@))
}

/// The container draws the box's background and border.
pub open spec fn container_wired(m: StoreModel, id: Entity, c: Entity) -> bool {
    &&& holds(m, c, "background"@, SlotModel::Shared(id, "background"@))
    &&& holds(m, c, "border_brush"@, SlotModel::Shared(id, "border_brush"@))
}

/// The grid clips its children.
pub open spec fn grid_wired(m: StoreModel, g: Entity) -> bool {
    holds(m, g, "clip"@, SlotModel::Owned(ValueModel::Bool(true)))
}

/// `m2` differs from `m1` at most in the properties of `e`, which still exists.
pub open spec fn changed_only(m1: StoreModel, m2: StoreModel, e: Entity) -> bool {
    &&& m2.len() == m1.len()
    &&& is_live(m2, e)
    &&& forall|k: int| 0 <= k < m1.len() && k != e.0 ==> #[trigger] m2[k] == m1[k]
}

fn wire_text_block(ctx: &mut World, id: Entity, tb: Entity)
    requires
        old(ctx).wf(),
        is_live(old(ctx).store@, tb),
    ensures
        final(ctx).wf(),
        final(ctx).tree@ == old(ctx).tree@,
        final(ctx).states@ == old(ctx).states@,
        final(ctx).handlers@ == old(ctx).handlers@,
        changed_only(old(ctx).store@, final(ctx).store@, tb),
        text_block_wired(final(ctx).store@, id, tb),
{
    proof {
        reveal_strlit("v_align");
        reveal_strlit("h_align");
        reveal_strlit("foreground");
        reveal_strlit("water_mark");
        reveal_strlit("font");
        reveal_strlit("text");
        assert("v_align"@[0] == 'v');
        assert("h_align"@[0] == 'h');
        assert("foreground"@[0] == 'f' && "foreground"@[2] == 'r');
        assert("water_mark"@[0] == 'w');
        assert("font"@[0] == 'f' && "font"@[2] == 'n');
        assert("text"@[0] == 't');
    }
    ctx.put_value(tb, "v_align", Value::Text(text_of("center")));
    ctx.put_value(tb, "h_align", Value::Text(text_of("start")));
    ctx.share(tb, "foreground", id, "foreground");
    ctx.share(tb, "water_mark", id, "water_mark");
    ctx.share(tb, "font", id, "font");
    ctx.share(tb, "text", id, "mask");
}

fn wire_cursor(ctx: &mut World, id: Entity, cursor: Entity, tb: Entity)
    requires
        old(ctx).wf(),
        is_live(old(ctx).store@, cursor),
    ensures
        final(ctx).wf(),
        final(ctx).tree@ == old(ctx).tree@,
        final(ctx).states@ == old(ctx).states@,
        final(ctx).handlers@ == old(ctx).handlers@,
        changed_only(old(ctx).store@, final(ctx).store@, cursor),
        cursor_wired(final(ctx).store@, id, cursor, tb),
{
    proof {
        reveal_strlit("h_align");
        reveal_strlit("text_block");
        reveal_strlit("focused");
        reveal_strlit("text_selection_start");
        reveal_strlit("text_selection_length");
        assert("h_align"@[0] == 'h');
        assert("text_block"@[0] == 't' && "text_block"@[5] == 'b');
        assert("focused"@[0] == 'f');
        assert("text_selection_start"@[0] == 't' && "text_selection_start"@[5] == 's' && "text_selection_start"@[15] == 's');
        assert("text_selection_length"@[0] == 't' && "text_selection_length"@[5] == 's' && "text_selection_length"@[15] == 'l');
    }
    ctx.put_value(cursor, "h_align", Value::Text(text_of("start")));
    ctx.put_value(cursor, "text_block", Value::Entity(tb));
    ctx.share(cursor, "focused", id, "focused");
    ctx.share(cursor, "text_selection_start", id, "text_selection_start");
    ctx.share(cursor, "text_selection_length", id, "text_selection_length");
}

#[verifier::rlimit(60)]
fn wire_text_behavior(ctx: &mut World, id: Entity, tbh: Entity, cursor: Entity)
    requires
        old(ctx).wf(),
        is_live(old(ctx).store@, tbh),
    ensures
        final(ctx).wf(),
        final(ctx).tree@ == old(ctx).tree@,
        final(ctx).states@ == old(ctx).states@,
        final(ctx).handlers@ == old(ctx).handlers@,
        changed_only(old(ctx).store@, final(ctx).store@, tbh),
        text_behavior_wired(final(ctx).store@, id, tbh, cursor),
{
    proof {
        reveal_strlit("cursor");
        reveal_strlit("target");
        reveal_strlit("focused");
        reveal_strlit("font");
        reveal_strlit("lost_focus_on_activation");
        reveal_strlit("request_focus");
        reveal_strlit("text");
        reveal_strlit("text_selection_start");
        reveal_strlit("text_selection_length");
        assert("cursor"@[0] == 'c');
        assert("target"@[0] == 't' && "target"@[1] == 'a');
        assert("focused"@[0] == 'f' && "focused"@[2] == 'c');
        assert("font"@[0] == 'f' && "font"@[2] == 'n');
        assert("lost_focus_on_activation"@[0] == 'l');
        assert("request_focus"@[0] == 'r');
        assert("text"@[0] == 't' && "text"@[1] == 'e' && "text"@.len() == 4);
        assert("text_selection_start"@[0] == 't' && "text_selection_start"@[1] == 'e' && "text_selection_start"@[15] == 's' && "text_selection_start"@.len() == 20);
        assert("text_selection_length"@[0] == 't' && "text_selection_length"@[1] == 'e' && "text_selection_length"@[15] == 'l' && "text_selection_length"@.len() == 21);
    }
    ctx.put_value(tbh, "cursor", Value::Entity(cursor));
    ctx.put_value(tbh, "target", Value::Entity(id));
    ctx.share(tbh, "focused", id, "focused");
    ctx.share(tbh, "font", id, "font");
    ctx.share(tbh, "lost_focus_on_activation", id, "lost_focus_on_activation");
    ctx.share(tbh, "request_focus", id, "request_focus");
    ctx.share(tbh, "text", id, "text");
    ctx.share(tbh, "text_selection_start", id, "text_selection_start");
    ctx.share(tbh, "text_selection_length", id, "text_selection_length");
}

fn wire_container(ctx: &mut World, id: Entity, c: Entity)
    requires
        old(ctx).wf(),
        is_live(old(ctx).store@, c),
    ensures
        final(ctx).wf(),
        final(ctx).tree@ == old(ctx).tree@,
        final(ctx).states@ == old(ctx).states@,
        final(ctx).handlers@ == old(ctx).handlers@,
        changed_only(old(ctx).store@, final(ctx).store@, c),
        container_wired(final(ctx).store@, id, c),
{
    proof {
        reveal_strlit("background");
        reveal_strlit("border_brush");
    }
    ctx.share(c, "background", id, "background");
    ctx.share(c, "border_brush", id, "border_brush");
}

fn wire_grid(ctx: &mut World, g: Entity)
    requires
        old(ctx).wf(),
        is_live(old(ctx).store@, g),
    ensures
        final(ctx).wf(),
        final(ctx).tree@ == old(ctx).tree@,
        final(ctx).states@ == old(ctx).states@,
        final(ctx).handlers@ == old(ctx).handlers@,
        changed_only(old(ctx).store@, final(ctx).store@, g),
        grid_wired(final(ctx).store@, g),
{
    ctx.put_value(g, "clip", Value::Bool(true));
}

/// Gives the box `id` its own values.
#[verifier::rlimit(100)]
fn put_box_values(ctx: &mut World, id: Entity, water_mark: Vec<char>, text: Vec<char>, echo: char)
    requires
        old(ctx).wf(),
        is_live(old(ctx).store@, id),
    ensures
        final(ctx).wf(),
        final(ctx).tree@ == old(ctx).tree@,
        final(ctx).states@ == old(ctx).states@,
        final(ctx).handlers@ == old(ctx).handlers@,
        changed_only(old(ctx).store@, final(ctx).store@, id),
        box_values(final(ctx).store@, id, echo, text@, water_mark@),
{
    proof {
        reveal_strlit("name");
        reveal_strlit("style");
        reveal_strlit("water_mark");
        reveal_strlit("foreground");
        reveal_strlit("font");
        reveal_strlit("background");
        reveal_strlit("border_brush");
        reveal_strlit("focused");
        reveal_strlit("lost_focus_on_activation");
        reveal_strlit("request_focus");
        reveal_strlit("text");
        reveal_strlit("mask");
        reveal_strlit("echo");
        reveal_strlit("text_selection_start");
        reveal_strlit("text_selection_length");
        reveal_strlit("on_changed_filter");
        assert("name"@[0] == 'n');
        assert("style"@[0] == 's');
        assert("water_mark"@[0] == 'w');
        assert("foreground"@[0] == 'f' && "foreground"@[2] == 'r');
        assert("font"@[0] == 'f' && "font"@[2] == 'n');
        assert("background"@[0] == 'b' && "background"@[1] == 'a');
        assert("border_brush"@[0] == 'b' && "border_brush"@[1] == 'o');
        assert("focused"@[0] == 'f' && "focused"@[2] == 'c');
        assert("lost_focus_on_activation"@[0] == 'l');
        assert("request_focus"@[0] == 'r');
        assert("text"@[0] == 't' && "text"@.len() == 4);
        assert("mask"@[0] == 'm');
        assert("echo"@[0] == 'e');
        assert("text_selection_start"@[0] == 't' && "text_selection_start"@[15] == 's' && "text_selection_start"@.len() == 20);
        assert("text_selection_length"@[0] == 't' && "text_selection_length"@[15] == 'l' && "text_selection_length"@.len() == 21);
        assert("on_changed_filter"@[0] == 'o');
    }
    let ghost wm = water_mark@;
    let ghost t = text@;
    ctx.put_value(id, "name", Value::Text(text_of("PasswordBox")));
    ctx.put_value(id, "style", Value::Text(text_of("text_box")));
    ctx.put_value(id, "water_mark", Value::Text(water_mark));
    ctx.put_value(id, "foreground", Value::Text(text_of("link_water")));
    ctx.put_value(id, "font", Value::Text(text_of("Roboto-Regular")));
    ctx.put_value(id, "background", Value::Text(text_of("lynch")));
    ctx.put_value(id, "border_brush", Value::Text(text_of("transparent")));
    ctx.put_value(id, "focused", Value::Bool(false));
    ctx.put_value(id, "lost_focus_on_activation", Value::Bool(true));
    ctx.put_value(id, "request_focus", Value::Bool(false));
    ctx.put_value(id, "text", Value::Text(text));
    ctx.put_value(id, "mask", Value::Text(Vec::new()));
    ctx.put_value(id, "echo", Value::Char(echo));
    ctx.put_value(id, "text_selection_start", Value::Int(0));
    ctx.put_value(id, "text_selection_length", Value::Int(0));
    let filter = vec![key("text"), key("mask")];
    assert(names_view(filter@) =~= seq!["text"@, "mask"@]);
    ctx.put_value(id, "on_changed_filter", Value::Names(filter));
    assert(box_values(ctx.store@, id, echo, t, wm));
}

} // verus!
