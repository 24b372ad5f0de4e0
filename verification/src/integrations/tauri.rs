use vstd::prelude::*;
use std::collections::HashMap;

verus! {

/// The identifier a JSON-RPC request carries.
pub enum RequestId {
    Null,
    Number(u32),
    String(String),
}

pub ghost enum RequestIdView {
    Null,
    Number(u32),
    String(Seq<char>),
}

impl View for RequestId {
    type V = RequestIdView;

    open spec fn view(&self) -> RequestIdView {
        match self {
            RequestId::Null => RequestIdView::Null,
            RequestId::Number(n) => RequestIdView::Number(*n),
            RequestId::String(s) => RequestIdView::String(s@),
        }
    }
}

/// Whether two request identifiers are the same.
pub fn same_request_id(a: &RequestId, b: &RequestId) -> (res: bool)
    ensures
        res == (a@ == b@),
{
    match (a, b) {
        (RequestId::Null, RequestId::Null) => true,
        (RequestId::Number(x), RequestId::Number(y)) => *x == *y,
        (RequestId::String(x), RequestId::String(y)) => *x == *y,
        _ => false,
    }
}

/// The identifiers of `ids`, in order.
pub open spec fn id_views(ids: Seq<RequestId>) -> Seq<RequestIdView> {
    ids.map_values(|id: RequestId| id@)
}

/// No window runs two subscriptions with the same identifier.
pub open spec fn distinct_subscriptions(windows: Map<u64, Seq<RequestIdView>>) -> bool {
    forall|w: u64| #[trigger] windows.dom().contains(w) ==> windows[w].no_duplicates()
}

/// The open windows of the plugin, each under the hash of its window, with
/// the subscriptions running for it.
pub struct WindowManager {
    windows: HashMap<u64, Vec<RequestId>>,
}

/// What to do after a page was loaded in a window.
pub enum PageLoad {
    /// The window is new: listen to its requests from now on.
    Listen,
    /// The window was loaded before: stop these subscriptions of the
    /// previous page; the window is listened to already.
    Reload(Vec<RequestId>),
}

/// What became of a subscription that was to be registered.
pub enum Registration {
    /// The window is not open.
    UnknownWindow,
    /// The subscription was added.
    Added,
    /// A subscription with the same identifier was running and is replaced.
    Replaced,
}

impl View for WindowManager {
    type V = Map<u64, Seq<RequestIdView>>;

    closed spec fn view(&self) -> Map<u64, Seq<RequestIdView>> {
        self.windows@.map_values(|ids: Vec<RequestId>| id_views(ids@))
    }
}

impl WindowManager {
    #[verifier::type_invariant]
    closed spec fn well_formed(self) -> bool {
        distinct_subscriptions(self@)
    }

    /// No window is open.
    pub fn new() -> (res: Self)
        ensures
            res@ == Map::<u64, Seq<RequestIdView>>::empty(),
            distinct_subscriptions(res@),
    {
        let res = WindowManager { windows: HashMap::new() };
        assert(res@ =~= Map::<u64, Seq<RequestIdView>>::empty());
        res
    }

    /// A page was loaded in window `window`. A window seen before keeps its
    /// entry and has its subscriptions stopped; a new window is entered with
    /// no subscriptions and is to be listened to.
    pub fn on_page_load(&mut self, window: u64) -> (res: PageLoad)
        ensures
            final(self)@ == old(self)@.insert(window, Seq::<RequestIdView>::empty()),
            old(self)@.dom().contains(window) ==> (res matches PageLoad::Reload(ids) && id_views(
                ids@,
            ) == old(self)@[window]),
            !old(self)@.dom().contains(window) ==> res is Listen,
            distinct_subscriptions(final(self)@),
    {
        broadcast use vstd::std_specs::hash::group_hash_axioms;
        proof {
            use_type_invariant(&*self);
        }
        let ghost old_view = self@;
        let mut windows: HashMap<u64, Vec<RequestId>> = HashMap::new();
        std::mem::swap(&mut windows, &mut self.windows);
        let fresh: Vec<RequestId> = Vec::new();
        let previous = windows.insert(window, fresh);
        proof {
            assert(id_views(fresh@) =~= Seq::<RequestIdView>::empty());
            assert(windows@.map_values(|ids: Vec<RequestId>| id_views(ids@)) =~= old_view.insert(
                window,
                Seq::<RequestIdView>::empty(),
            ));
        }
        self.windows = windows;
        match previous {
            Some(ids) => PageLoad::Reload(ids),
            None => PageLoad::Listen,
        }
    }

    /// Window `window` asks to close: it is forgotten and its subscriptions
    /// are to be stopped. Nothing happens for a window that is not open.
    pub fn close_requested(&mut self, window: u64) -> (res: Option<Vec<RequestId>>)
        ensures
            final(self)@ == old(self)@.remove(window),
            res is Some <==> old(self)@.dom().contains(window),
            res matches Some(ids) ==> id_views(ids@) == old(self)@[window],
            distinct_subscriptions(final(self)@),
    {
        broadcast use vstd::std_specs::hash::group_hash_axioms;
        proof {
            use_type_invariant(&*self);
        }
        let ghost old_view = self@;
        let mut windows: HashMap<u64, Vec<RequestId>> = HashMap::new();
        std::mem::swap(&mut windows, &mut self.windows);
        let res = windows.remove(&window);
        proof {
            assert(windows@.map_values(|ids: Vec<RequestId>| id_views(ids@)) =~= old_view.remove(
                window,
            ));
        }
        self.windows = windows;
        res
    }

    /// Registers the subscription `id` of window `window`. A subscription
    /// with the same identifier is replaced (it stays listed once).
    pub fn register_subscription(&mut self, window: u64, id: RequestId) -> (res: Registration)
        ensures
            res is UnknownWindow <==> !old(self)@.dom().contains(window),
            res is Replaced <==> old(self)@.dom().contains(window) && old(self)@[window].contains(id@),
            res is Added ==> final(self)@ == old(self)@.insert(window, old(self)@[window].push(id@)),
            !(res is Added) ==> final(self)@ == old(self)@,
            distinct_subscriptions(final(self)@),
    {
        broadcast use vstd::std_specs::hash::group_hash_axioms;
        proof {
            use_type_invariant(&*self);
        }
        let ghost old_view = self@;
        let mut windows: HashMap<u64, Vec<RequestId>> = HashMap::new();
        std::mem::swap(&mut windows, &mut self.windows);
        let ghost old_windows = windows@;
        let res = match windows.remove(&window) {
            None => Registration::UnknownWindow,
            Some(mut ids) => {
                let ghost old_ids = ids@;
                assert(old_view.dom().contains(window));
                assert(id_views(old_ids) == old_view[window]);
                assert(id_views(old_ids).no_duplicates());
                let found = contains_request_id(&ids, &id);
                if !found {
                    ids.push(id);
                    proof {
                        assert(id_views(ids@) =~= id_views(old_ids).push(ids@.last()@));
                        assert forall|a: int, b: int|
                            0 <= a < id_views(ids@).len() && 0 <= b < id_views(ids@).len() && a
                                != b implies id_views(ids@)[a] != id_views(ids@)[b] by {
                            if a < old_ids.len() && b < old_ids.len() {
                                assert(id_views(ids@)[a] == id_views(old_ids)[a]);
                                assert(id_views(ids@)[b] == id_views(old_ids)[b]);
                            } else if a < old_ids.len() {
                                assert(id_views(ids@)[a] == id_views(old_ids)[a]);
                            } else if b < old_ids.len() {
                                assert(id_views(ids@)[b] == id_views(old_ids)[b]);
                            }
                        }
                    }
                }
                let ghost new_ids = id_views(ids@);
                windows.insert(window, ids);
                proof {
                    assert(windows@ == old_windows.remove(window).insert(window, windows@[window]));
                    assert(windows@.map_values(|ids: Vec<RequestId>| id_views(ids@))
                        =~= old_view.insert(window, new_ids));
                }
                if found {
                    assert(old_view.insert(window, new_ids) =~= old_view);
                    Registration::Replaced
                } else {
                    Registration::Added
                }
            },
        };
        proof {
            if res is UnknownWindow {
                assert(windows@.map_values(|ids: Vec<RequestId>| id_views(ids@)) =~= old_view);
            }
        }
        self.windows = windows;
        res
    }

    /// Forgets the subscription `id` of window `window`; tells whether it was
    /// registered.
    pub fn remove_subscription(&mut self, window: u64, id: &RequestId) -> (res: bool)
        ensures
            res <==> old(self)@.dom().contains(window) && old(self)@[window].contains(id@),
            res ==> final(self)@ == old(self)@.insert(
                window,
                old(self)@[window].remove(old(self)@[window].index_of(id@)),
            ),
            !res ==> final(self)@ == old(self)@,
            distinct_subscriptions(final(self)@),
    {
        broadcast use vstd::std_specs::hash::group_hash_axioms;
        proof {
            use_type_invariant(&*self);
        }
        let ghost old_view = self@;
        let mut windows: HashMap<u64, Vec<RequestId>> = HashMap::new();
        std::mem::swap(&mut windows, &mut self.windows);
        let ghost old_windows = windows@;
        let res = match windows.remove(&window) {
            None => {
                assert(windows@.map_values(|ids: Vec<RequestId>| id_views(ids@)) =~= old_view);
                false
            },
            Some(mut ids) => {
                let ghost old_ids = ids@;
                assert(old_view.dom().contains(window));
                assert(id_views(old_ids) == old_view[window]);
                assert(id_views(old_ids).no_duplicates());
                let pos = position_of_request_id(&ids, id);
                match pos {
                    Some(j) => {
                        ids.remove(j);
                        proof {
                            let ov = id_views(old_ids);
                            assert(ov[j as int] == id@);
                            assert(ov.index_of(id@) == j as int) by {
                                let k = ov.index_of(id@);
                                assert(ov.contains(id@));
                                assert(ov[k] == id@);
                            }
                            assert(id_views(ids@) =~= ov.remove(j as int));
                            assert forall|a: int, b: int|
                                0 <= a < id_views(ids@).len() && 0 <= b < id_views(ids@).len()
                                    && a != b implies id_views(ids@)[a] != id_views(ids@)[b] by {
                                let a2 = if a < j { a } else { a + 1 };
                                let b2 = if b < j { b } else { b + 1 };
                                assert(id_views(ids@)[a] == ov[a2]);
                                assert(id_views(ids@)[b] == ov[b2]);
                            }
                        }
                    },
                    None => {},
                }
                let ghost new_ids = id_views(ids@);
                windows.insert(window, ids);
                proof {
                    assert(windows@ == old_windows.remove(window).insert(window, windows@[window]));
                    assert(windows@.map_values(|ids: Vec<RequestId>| id_views(ids@))
                        =~= old_view.insert(window, new_ids));
                }
                let found = pos.is_some();
                if !found {
                    assert(old_view.insert(window, new_ids) =~= old_view);
                }
                found
            },
        };
        self.windows = windows;
        res
    }
}

/// Whether `ids` holds an identifier equal to `id`.
fn contains_request_id(ids: &Vec<RequestId>, id: &RequestId) -> (res: bool)
    ensures
        res == id_views(ids@).contains(id@),
{
    position_of_request_id(ids, id).is_some()
}

/// The position of `id` in `ids`, if it is there.
fn position_of_request_id(ids: &Vec<RequestId>, id: &RequestId) -> (res: Option<usize>)
    ensures
        res is Some <==> id_views(ids@).contains(id@),
        res matches Some(j) ==> j < ids@.len() && ids@[j as int]@ == id@,
{
    let mut j: usize = 0;
    while j < ids.len()
        invariant
            0 <= j <= ids@.len(),
            forall|k: int| 0 <= k < j ==> (#[trigger] ids@[k])@ != id@,
        decreases ids.len() - j,
    {
        if same_request_id(&ids[j], id) {
            assert(id_views(ids@)[j as int] == id@);
            return Some(j);
        }
        j = j + 1;
    }
    proof {
        if id_views(ids@).contains(id@) {
            let k = choose|k: int| 0 <= k < id_views(ids@).len() && id_views(ids@)[k] == id@;
            assert(ids@[k]@ == id@);
        }
    }
    None
}

/// A window whose page was loaded and that then asks to close leaves no
/// trace: the windows are as if it had only been closed.
pub proof fn lemma_load_then_close(windows: Map<u64, Seq<RequestIdView>>, window: u64)
    ensures
        windows.insert(window, Seq::<RequestIdView>::empty()).remove(window) == windows.remove(
            window,
        ),
        !windows.remove(window).dom().contains(window),
{
    assert(windows.insert(window, Seq::<RequestIdView>::empty()).remove(window) =~= windows.remove(
        window,
    ));
}

/// The windows after `n` page loads in window `window`, one after the other
/// (as `WindowManager::on_page_load` changes them).
pub open spec fn after_page_loads(
    windows: Map<u64, Seq<RequestIdView>>,
    window: u64,
    n: nat,
) -> Map<u64, Seq<RequestIdView>>
    decreases n,
{
    if n == 0 {
        windows
    } else {
        after_page_loads(windows, window, (n - 1) as nat).insert(window, Seq::<RequestIdView>::empty())
    }
}

/// How many of `n` page loads in window `window`, one after the other, find
/// the window not open and so answer `PageLoad::Listen`.
pub open spec fn listens(windows: Map<u64, Seq<RequestIdView>>, window: u64, n: nat) -> nat
    decreases n,
{
    if n == 0 {
        0
    } else {
        listens(windows, window, (n - 1) as nat) + if after_page_loads(
            windows,
            window,
            (n - 1) as nat,
        ).dom().contains(window) {
            0nat
        } else {
            1nat
        }
    }
}

/// However often a page is loaded in a window, the window has one entry,
/// with no subscriptions, and it is listened to once at most: once when it
/// was not open before, never when it was.
pub proof fn lemma_repeated_page_loads(windows: Map<u64, Seq<RequestIdView>>, window: u64, n: nat)
    requires
        n >= 1,
    ensures
        after_page_loads(windows, window, n) == windows.insert(window, Seq::<RequestIdView>::empty()),
        listens(windows, window, n) == if windows.dom().contains(window) {
            0nat
        } else {
            1nat
        },
    decreases n,
{
    let e = Seq::<RequestIdView>::empty();
    if n == 1 {
        assert(after_page_loads(windows, window, 0) == windows);
        assert(listens(windows, window, 0) == 0);
    } else {
        lemma_repeated_page_loads(windows, window, (n - 1) as nat);
        assert(after_page_loads(windows, window, (n - 1) as nat).dom().contains(window));
        assert(windows.insert(window, e).insert(window, e) =~= windows.insert(window, e));
    }
}

/// A page loaded twice in a row in the same window stops no subscription the
/// second time.
pub proof fn lemma_reload_right_after_load(windows: Map<u64, Seq<RequestIdView>>, window: u64)
    ensures
        windows.insert(window, Seq::<RequestIdView>::empty()).dom().contains(window),
        windows.insert(window, Seq::<RequestIdView>::empty())[window] == Seq::<
            RequestIdView,
        >::empty(),
        windows.insert(window, Seq::<RequestIdView>::empty()).insert(
            window,
            Seq::<RequestIdView>::empty(),
        ) == windows.insert(window, Seq::<RequestIdView>::empty()),
{
    assert(windows.insert(window, Seq::<RequestIdView>::empty()).insert(
        window,
        Seq::<RequestIdView>::empty(),
    ) =~= windows.insert(window, Seq::<RequestIdView>::empty()));
}

/// Registering a new subscription and then removing it gives the window back
/// the subscriptions it had.
pub proof fn lemma_register_then_remove(subscriptions: Seq<RequestIdView>, id: RequestIdView)
    requires
        subscriptions.no_duplicates(),
        !subscriptions.contains(id),
    ensures
        subscriptions.push(id).contains(id),
        subscriptions.push(id).remove(subscriptions.push(id).index_of(id)) == subscriptions,
{
    let s = subscriptions.push(id);
    assert(s[subscriptions.len() as int] == id);
    let k = s.index_of(id);
    assert(s.contains(id));
    assert(s[k] == id);
    if k < subscriptions.len() {
        assert(s[k] == subscriptions[k]);
        assert(subscriptions.contains(id));
    }
    assert(s.remove(k) =~= subscriptions);
}

/// The event a window sends its requests on.
pub fn request_event() -> (res: String)
    ensures
        res@ == "plugin:rspc:transport"@,
{
    "plugin:rspc:transport".to_owned()
}

/// The event responses are sent to a window on.
pub fn response_event() -> (res: String)
    ensures
        res@ == "plugin:rspc:transport:resp"@,
{
    "plugin:rspc:transport:resp".to_owned()
}

/// A message to emit: `payload` as event `event` to window `window`.
pub struct Emission<R> {
    pub window: u64,
    pub event: String,
    pub payload: R,
}

/// Answers one request of a window.
pub struct TauriSender {
    pub window: u64,
}

/// Keeps answering a subscription of a window.
pub struct TauriOwnedSender {
    pub window: u64,
}

/// How a request goes on once it turns out to start a subscription.
pub enum SubscriptionUpgrade {
    /// The subscription is answered through the sender, and registered with
    /// the subscriptions of the given window.
    Supported(TauriOwnedSender, u64),
    /// Subscriptions cannot be served; the plain sender is handed back.
    Unsupported(TauriSender),
}

impl TauriSender {
    /// Subscriptions are served: they are answered to the same window and
    /// registered with its subscriptions.
    pub fn subscription(self) -> (res: SubscriptionUpgrade)
        ensures
            res matches SubscriptionUpgrade::Supported(owned, w) && owned.window == self.window && w
                == self.window,
    {
        let window = self.window;
        SubscriptionUpgrade::Supported(TauriOwnedSender { window }, window)
    }

    /// The response `resp`, to be emitted to the window on the response event.
    pub fn send<R>(self, resp: R) -> (res: Emission<R>)
        ensures
            res.window == self.window,
            res.event@ == "plugin:rspc:transport:resp"@,
            res.payload == resp,
    {
        Emission { window: self.window, event: response_event(), payload: resp }
    }
}

impl TauriOwnedSender {
    /// The response `resp`, to be emitted to the window on the response event.
    pub fn send<R>(&mut self, resp: R) -> (res: Emission<R>)
        ensures
            *final(self) == *old(self),
            res.window == old(self).window,
            res.event@ == "plugin:rspc:transport:resp"@,
            res.payload == resp,
    {
        Emission { window: self.window, event: response_event(), payload: resp }
    }
}

/// What a window reported besides page loads.
pub enum WindowEvent {
    /// The window asks to be closed.
    CloseRequested,
    /// Anything else.
    Other,
}

/// The desktop plugin that serves a router to the windows of an
/// application: its name, whether the context of each request is made from
/// the window it came from, and the windows it serves.
pub struct Plugin {
    pub name: String,
    pub context_from_window: bool,
    pub windows: WindowManager,
}

/// The plugin `rspc`, with a context made without looking at the window.
pub fn plugin() -> (res: Plugin)
    ensures
        res.name@ == "rspc"@,
        !res.context_from_window,
        res.windows@ == Map::<u64, Seq<RequestIdView>>::empty(),
{
    Plugin { name: "rspc".to_owned(), context_from_window: false, windows: WindowManager::new() }
}

/// The plugin `rspc`, with a context made from the window each request comes
/// from.
pub fn plugin_with_ctx() -> (res: Plugin)
    ensures
        res.name@ == "rspc"@,
        res.context_from_window,
        res.windows@ == Map::<u64, Seq<RequestIdView>>::empty(),
{
    Plugin { name: "rspc".to_owned(), context_from_window: true, windows: WindowManager::new() }
}

impl Plugin {
    /// A page was loaded in window `window`.
    pub fn on_page_load(&mut self, window: u64) -> (res: PageLoad)
        ensures
            final(self).name == old(self).name,
            final(self).context_from_window == old(self).context_from_window,
            final(self).windows@ == old(self).windows@.insert(window, Seq::<RequestIdView>::empty()),
            old(self).windows@.dom().contains(window) ==> (res matches PageLoad::Reload(ids)
                && id_views(ids@) == old(self).windows@[window]),
            !old(self).windows@.dom().contains(window) ==> res is Listen,
    {
        self.windows.on_page_load(window)
    }

    /// Window `window` reported `event`. When it asks to close, it is
    /// forgotten and the subscriptions it ran are returned to be stopped;
    /// other events change nothing.
    pub fn on_window_event(&mut self, window: u64, event: WindowEvent) -> (res: Option<
        Vec<RequestId>,
    >)
        ensures
            final(self).name == old(self).name,
            final(self).context_from_window == old(self).context_from_window,
            event is CloseRequested ==> final(self).windows@ == old(self).windows@.remove(window)
                && (res is Some <==> old(self).windows@.dom().contains(window)),
            event is Other ==> final(self).windows@ == old(self).windows@ && res is None,
            res matches Some(ids) ==> id_views(ids@) == old(self).windows@[window],
    {
        match event {
            WindowEvent::CloseRequested => self.windows.close_requested(window),
            WindowEvent::Other => None,
        }
    }
}

/// What a JSON text holds at its top level, as far as reading requests
/// needs it.
pub enum JsonShape {
    /// A string, with its contents.
    Text(String),
    /// An array.
    Array,
    /// Any other value.
    Other,
}

pub ghost enum JsonShapeView {
    Text(Seq<char>),
    Array,
    Other,
}

impl View for JsonShape {
    type V = JsonShapeView;

    open spec fn view(&self) -> JsonShapeView {
        match self {
            JsonShape::Text(s) => JsonShapeView::Text(s@),
            JsonShape::Array => JsonShapeView::Array,
            JsonShape::Other => JsonShapeView::Other,
        }
    }
}

/// What `serde_json::from_str::<serde_json::Value>` makes of a text: `None`
/// when it refuses it, else the shape of the value it reads.
pub uninterp spec fn json_shape(text: Seq<char>) -> Option<JsonShapeView>;

/// Calls `serde_json::from_str::<serde_json::Value>` on `text` and reports
/// whether it failed, or read a string (with its contents), an array or
/// another value.
#[verifier::external_body]
fn parse_json_shape(text: &str) -> (res: Option<JsonShape>)
    ensures
        match res {
            Some(shape) => json_shape(text@) == Some(shape@),
            None => json_shape(text@) is None,
        },
{
    match serde_json::from_str::<serde_json::Value>(text) {
        Ok(serde_json::Value::String(s)) => Some(JsonShape::Text(s)),
        Ok(serde_json::Value::Array(_)) => Some(JsonShape::Array),
        Ok(_) => Some(JsonShape::Other),
        Err(_) => None,
    }
}

/// Why the requests of an event could not be read.
#[derive(Debug)]
pub enum PayloadError {
    /// The event carried no payload.
    Empty,
    /// The payload, or the string it held, is not JSON.
    Malformed,
}

/// The JSON text the requests are read from, and whether it holds a list of
/// requests rather than one request.
pub struct DecodedPayload {
    pub json: String,
    pub batch: bool,
}

/// The requests' text and form, given the shape `outer` of the payload text
/// `text` and, where that is a string, the shape `inner` of its contents: a
/// payload that is a JSON string holds the requests as JSON text of their
/// own.
pub fn resolve_payload(text: String, outer: Option<JsonShape>, inner: Option<JsonShape>) -> (res:
    Result<DecodedPayload, PayloadError>)
    ensures
        match outer {
            None => res matches Err(PayloadError::Malformed),
            Some(JsonShape::Text(s)) => match inner {
                None => res matches Err(PayloadError::Malformed),
                Some(shape) => res matches Ok(d) && d.json@ == s@ && d.batch == (shape is Array),
            },
            Some(JsonShape::Array) => res matches Ok(d) && d.json@ == text@ && d.batch,
            Some(JsonShape::Other) => res matches Ok(d) && d.json@ == text@ && !d.batch,
        },
{
    match outer {
        None => Err(PayloadError::Malformed),
        Some(JsonShape::Text(s)) => match inner {
            None => Err(PayloadError::Malformed),
            Some(shape) => {
                let batch = match shape {
                    JsonShape::Array => true,
                    _ => false,
                };
                Ok(DecodedPayload { json: s, batch })
            },
        },
        Some(JsonShape::Array) => Ok(DecodedPayload { json: text, batch: true }),
        Some(JsonShape::Other) => Ok(DecodedPayload { json: text, batch: false }),
    }
}

/// How the payload `payload` of a request event is read, by the shapes that
/// `serde_json` gives its text and, where that is a string, the string's
/// contents.
pub open spec fn decoded(payload: Option<Seq<char>>) -> Result<(Seq<char>, bool), PayloadError> {
    match payload {
        None => Err(PayloadError::Empty),
        Some(text) => match json_shape(text) {
            None => Err(PayloadError::Malformed),
            Some(JsonShapeView::Text(s)) => match json_shape(s) {
                None => Err(PayloadError::Malformed),
                Some(shape) => Ok((s, shape is Array)),
            },
            Some(JsonShapeView::Array) => Ok((text, true)),
            Some(JsonShapeView::Other) => Ok((text, false)),
        },
    }
}

/// A payload that is the JSON text `inner`, once more encoded as a JSON
/// string (`outer`), is read exactly like `inner` itself, unless `inner` is
/// a JSON string in turn.
pub proof fn lemma_rewrapped_payload(inner: Seq<char>, outer: Seq<char>)
    requires
        json_shape(outer) == Some(JsonShapeView::Text(inner)),
        !(json_shape(inner) matches Some(JsonShapeView::Text(_))),
    ensures
        decoded(Some(outer)) == decoded(Some(inner)),
{
}

/// Reads the payload of a request event into the JSON text of its requests
/// and whether they form a list.
pub fn decode_payload(payload: Option<&str>) -> (res: Result<DecodedPayload, PayloadError>)
    ensures
        match decoded(
            match payload {
                Some(t) => Some(t@),
                None => None,
            },
        ) {
            Ok((json, batch)) => res matches Ok(d) && d.json@ == json && d.batch == batch,
            Err(PayloadError::Empty) => res matches Err(PayloadError::Empty),
            Err(PayloadError::Malformed) => res matches Err(PayloadError::Malformed),
        },
{
    match payload {
        None => Err(PayloadError::Empty),
        Some(text) => {
            let outer = parse_json_shape(text);
            let inner = match &outer {
                Some(JsonShape::Text(s)) => parse_json_shape(s.as_str()),
                _ => None,
            };
            resolve_payload(text.to_owned(), outer, inner)
        },
    }
}

} // verus!
