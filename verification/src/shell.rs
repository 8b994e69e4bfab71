//! Desktop shell rules: theme colors for methods and statuses, toast
//! levels, variable annotations, and the shutdown sequence.
use vstd::prelude::*;
use crate::domain::{copy_opt_string, unix_timestamp, ResourceId};
use crate::text::{chars_of, str_eq, to_uppercase, trim, trim_seq, uppercase};

verus! {

pub const CANVAS: u32 = 0x0c0e14;
pub const ACTIVITY_BAR: u32 = 0x090b10;
pub const SIDEBAR: u32 = 0x12151e;
pub const HEADER: u32 = 0x12151e;
pub const SURFACE: u32 = 0x181c26;
pub const SURFACE_ELEVATED: u32 = 0x1f2432;
pub const HOVER: u32 = 0x252b3b;
pub const ACTIVE: u32 = 0x2c3347;
pub const BORDER: u32 = 0x232838;
pub const BORDER_SUBTLE: u32 = 0x1a1e2b;
pub const BORDER_FOCUS: u32 = 0x6366f1;
pub const TEXT: u32 = 0xf8fafc;
pub const TEXT_SECONDARY: u32 = 0xcad4e0;
pub const MUTED: u32 = 0x7e8b9f;
pub const MUTED_DARK: u32 = 0x4a5568;
pub const ACCENT: u32 = 0x6366f1;
pub const ACCENT_HOVER: u32 = 0x4f46e5;
pub const ACCENT_LIGHT: u32 = 0x818cf8;
pub const ACCENT_BG: u32 = 0x1e1b4b;
pub const INK: u32 = 0xffffff;
pub const DANGER: u32 = 0xef4444;
pub const DANGER_BG: u32 = 0x3b1414;
pub const WARNING: u32 = 0xf59e0b;
pub const WARNING_BG: u32 = 0x382205;
pub const SUCCESS: u32 = 0x10b981;
pub const SUCCESS_BG: u32 = 0x052e1f;
pub const METHOD_GET: u32 = 0x10b981;
pub const METHOD_GET_BG: u32 = 0x063725;
pub const METHOD_POST: u32 = 0x3b82f6;
pub const METHOD_POST_BG: u32 = 0x0f2a5c;
pub const METHOD_PUT: u32 = 0xf59e0b;
pub const METHOD_PUT_BG: u32 = 0x452805;
pub const METHOD_PATCH: u32 = 0xa855f7;
pub const METHOD_PATCH_BG: u32 = 0x35124f;
pub const METHOD_DELETE: u32 = 0xef4444;
pub const METHOD_DELETE_BG: u32 = 0x421010;
pub const METHOD_HEAD: u32 = 0x06b6d4;
pub const METHOD_HEAD_BG: u32 = 0x082c33;
pub const METHOD_OPTIONS: u32 = 0xec4899;
pub const METHOD_OPTIONS_BG: u32 = 0x3b0e25;

/// The text color of a method name, compared trimmed and uppercased.
pub open spec fn method_color_of(m: Seq<char>) -> u32 {
    if m == "GET"@ {
        METHOD_GET
    } else if m == "POST"@ {
        METHOD_POST
    } else if m == "PUT"@ {
        METHOD_PUT
    } else if m == "PATCH"@ {
        METHOD_PATCH
    } else if m == "DELETE"@ {
        METHOD_DELETE
    } else if m == "HEAD"@ {
        METHOD_HEAD
    } else if m == "OPTIONS"@ {
        METHOD_OPTIONS
    } else {
        MUTED
    }
}

/// The pill background of a method name, compared trimmed and uppercased.
pub open spec fn method_bg_color_of(m: Seq<char>) -> u32 {
    if m == "GET"@ {
        METHOD_GET_BG
    } else if m == "POST"@ {
        METHOD_POST_BG
    } else if m == "PUT"@ {
        METHOD_PUT_BG
    } else if m == "PATCH"@ {
        METHOD_PATCH_BG
    } else if m == "DELETE"@ {
        METHOD_DELETE_BG
    } else if m == "HEAD"@ {
        METHOD_HEAD_BG
    } else if m == "OPTIONS"@ {
        METHOD_OPTIONS_BG
    } else {
        SURFACE
    }
}

/// The text color for an HTTP method.
pub fn method_color(method: &str) -> (r: u32)
    ensures
        r == method_color_of(uppercase(trim_seq(method@))),
{
    let t = trim(method);
    let u = to_uppercase(t.as_str());
    let m = u.as_str();
    if str_eq(m, "GET") {
        METHOD_GET
    } else if str_eq(m, "POST") {
        METHOD_POST
    } else if str_eq(m, "PUT") {
        METHOD_PUT
    } else if str_eq(m, "PATCH") {
        METHOD_PATCH
    } else if str_eq(m, "DELETE") {
        METHOD_DELETE
    } else if str_eq(m, "HEAD") {
        METHOD_HEAD
    } else if str_eq(m, "OPTIONS") {
        METHOD_OPTIONS
    } else {
        MUTED
    }
}

/// The translucent pill background for an HTTP method.
pub fn method_bg_color(method: &str) -> (r: u32)
    ensures
        r == method_bg_color_of(uppercase(trim_seq(method@))),
{
    let t = trim(method);
    let u = to_uppercase(t.as_str());
    let m = u.as_str();
    if str_eq(m, "GET") {
        METHOD_GET_BG
    } else if str_eq(m, "POST") {
        METHOD_POST_BG
    } else if str_eq(m, "PUT") {
        METHOD_PUT_BG
    } else if str_eq(m, "PATCH") {
        METHOD_PATCH_BG
    } else if str_eq(m, "DELETE") {
        METHOD_DELETE_BG
    } else if str_eq(m, "HEAD") {
        METHOD_HEAD_BG
    } else if str_eq(m, "OPTIONS") {
        METHOD_OPTIONS_BG
    } else {
        SURFACE
    }
}

/// The text color for a response status: success, redirect, client and
/// server errors; anything else muted.
pub fn status_color(status: u16) -> (r: u32)
    ensures
        r == (if 200 <= status <= 299 {
            SUCCESS
        } else if 300 <= status <= 399 {
            METHOD_POST
        } else if 400 <= status <= 499 {
            WARNING
        } else if 500 <= status <= 599 {
            DANGER
        } else {
            MUTED
        }),
{
    if 200 <= status && status <= 299 {
        SUCCESS
    } else if 300 <= status && status <= 399 {
        METHOD_POST
    } else if 400 <= status && status <= 499 {
        WARNING
    } else if 500 <= status && status <= 599 {
        DANGER
    } else {
        MUTED
    }
}

/// The badge background for a response status.
pub fn status_bg_color(status: u16) -> (r: u32)
    ensures
        r == (if 200 <= status <= 299 {
            SUCCESS_BG
        } else if 300 <= status <= 399 {
            METHOD_POST_BG
        } else if 400 <= status <= 499 {
            WARNING_BG
        } else if 500 <= status <= 599 {
            DANGER_BG
        } else {
            SURFACE
        }),
{
    if 200 <= status && status <= 299 {
        SUCCESS_BG
    } else if 300 <= status && status <= 399 {
        METHOD_POST_BG
    } else if 400 <= status && status <= 499 {
        WARNING_BG
    } else if 500 <= status && status <= 599 {
        DANGER_BG
    } else {
        SURFACE
    }
}

// ---------------------------------------------------------------------------
// Notifications
// ---------------------------------------------------------------------------

#[derive(Debug, Clone, Copy, PartialEq, Eq, Structural)]
pub enum ToastLevel {
    Info,
    Success,
    Warning,
    Error,
}

/// A toast notification; `created_at` is in seconds since the Unix epoch.
#[derive(Debug, PartialEq, Eq)]
pub struct Toast {
    pub id: ResourceId,
    pub level: ToastLevel,
    pub title: String,
    pub message: Option<String>,
    pub duration_ms: u64,
    pub created_at: i64,
}

impl Toast {
    /// A toast with a fresh identifier, shown for four seconds.
    pub fn new(level: ToastLevel, title: &str) -> (r: Self)
        ensures
            r.level == level,
            r.title@ == title@,
            r.message is None,
            r.duration_ms == 4000,
    {
        Toast {
            id: ResourceId::new(),
            level,
            title: title.to_owned(),
            message: None,
            duration_ms: 4000,
            created_at: unix_timestamp(),
        }
    }

    pub fn with_message(self, message: &str) -> (r: Self)
        ensures
            r.message matches Some(m) && m@ == message@,
            r.id == self.id,
            r.level == self.level,
            r.title == self.title,
            r.duration_ms == self.duration_ms,
            r.created_at == self.created_at,
    {
        Toast { message: Some(message.to_owned()), ..self }
    }

    pub fn with_duration(self, ms: u64) -> (r: Self)
        ensures
            r == (Toast { duration_ms: ms, ..self }),
    {
        Toast { duration_ms: ms, ..self }
    }

    pub fn copy(&self) -> (r: Self)
        ensures
            r == *self,
    {
        Toast {
            id: self.id,
            level: self.level,
            title: self.title.clone(),
            message: copy_opt_string(&self.message),
            duration_ms: self.duration_ms,
            created_at: self.created_at,
        }
    }
}

/// The toasts of `s` other than those with identifier `id`, in order.
pub open spec fn without_toast(s: Seq<Toast>, id: ResourceId) -> Seq<Toast>
    decreases s.len(),
{
    if s.len() == 0 {
        Seq::empty()
    } else {
        let rest = without_toast(s.drop_last(), id);
        if s.last().id == id {
            rest
        } else {
            rest.push(s.last())
        }
    }
}

/// The toasts on screen, oldest first.
pub struct NotificationManager {
    active_toasts: Vec<Toast>,
}

impl NotificationManager {
    pub closed spec fn toasts(self) -> Seq<Toast> {
        self.active_toasts@
    }

    pub fn new() -> (r: Self)
        ensures
            r.toasts().len() == 0,
    {
        NotificationManager { active_toasts: Vec::new() }
    }

    pub fn push(&mut self, toast: Toast)
        ensures
            final(self).toasts() == old(self).toasts().push(toast),
    {
        self.active_toasts.push(toast);
    }

    fn push_new(&mut self, level: ToastLevel, title: &str, message: Option<String>)
        ensures
            final(self).toasts().len() == old(self).toasts().len() + 1,
            final(self).toasts().drop_last() == old(self).toasts(),
            final(self).toasts().last().level == level,
            final(self).toasts().last().title@ == title@,
            final(self).toasts().last().message == message,
            final(self).toasts().last().duration_ms == 4000,
    {
        let mut t = Toast::new(level, title);
        t.message = message;
        self.active_toasts.push(t);
        assert(self.active_toasts@.drop_last() =~= old(self).active_toasts@);
    }

    /// Shows an information toast.
    pub fn info(&mut self, title: &str, message: Option<String>)
        ensures
            final(self).toasts().len() == old(self).toasts().len() + 1,
            final(self).toasts().drop_last() == old(self).toasts(),
            final(self).toasts().last().level == ToastLevel::Info,
            final(self).toasts().last().title@ == title@,
            final(self).toasts().last().message == message,
            final(self).toasts().last().duration_ms == 4000,
    {
        self.push_new(ToastLevel::Info, title, message);
    }

    /// Shows a success toast.
    pub fn success(&mut self, title: &str, message: Option<String>)
        ensures
            final(self).toasts().len() == old(self).toasts().len() + 1,
            final(self).toasts().drop_last() == old(self).toasts(),
            final(self).toasts().last().level == ToastLevel::Success,
            final(self).toasts().last().title@ == title@,
            final(self).toasts().last().message == message,
            final(self).toasts().last().duration_ms == 4000,
    {
        self.push_new(ToastLevel::Success, title, message);
    }

    /// Shows an error toast.
    pub fn error(&mut self, title: &str, message: Option<String>)
        ensures
            final(self).toasts().len() == old(self).toasts().len() + 1,
            final(self).toasts().drop_last() == old(self).toasts(),
            final(self).toasts().last().level == ToastLevel::Error,
            final(self).toasts().last().title@ == title@,
            final(self).toasts().last().message == message,
            final(self).toasts().last().duration_ms == 4000,
    {
        self.push_new(ToastLevel::Error, title, message);
    }

    /// Removes every toast with identifier `id`.
    pub fn dismiss(&mut self, id: &ResourceId)
        ensures
            final(self).toasts() == without_toast(old(self).toasts(), *id),
    {
        let mut kept: Vec<Toast> = Vec::new();
        let mut i: usize = 0;
        assert(self.active_toasts@.take(0) =~= Seq::<Toast>::empty());
        while i < self.active_toasts.len()
            invariant
                i <= self.active_toasts@.len(),
                self.active_toasts == old(self).active_toasts,
                kept@ == without_toast(self.active_toasts@.take(i as int), *id),
            decreases self.active_toasts.len() - i,
        {
            assert(self.active_toasts@.take(i + 1).drop_last() =~= self.active_toasts@.take(i as int));
            if self.active_toasts[i].id != *id {
                kept.push(self.active_toasts[i].copy());
            }
            i = i + 1;
        }
        assert(self.active_toasts@.take(i as int) =~= self.active_toasts@);
        self.active_toasts = kept;
    }

    /// The toasts on screen, oldest first.
    pub fn list(&self) -> (r: Vec<Toast>)
        ensures
            r@ == self.toasts(),
    {
        let mut r: Vec<Toast> = Vec::new();
        let mut i: usize = 0;
        while i < self.active_toasts.len()
            invariant
                i <= self.active_toasts@.len(),
                r@ == self.active_toasts@.take(i as int),
            decreases self.active_toasts.len() - i,
        {
            r.push(self.active_toasts[i].copy());
            assert(self.active_toasts@.take(i + 1) =~= self.active_toasts@.take(i as int).push(self.active_toasts@[i as int]));
            i = i + 1;
        }
        assert(self.active_toasts@.take(i as int) =~= self.active_toasts@);
        r
    }
}

impl Default for NotificationManager {
    fn default() -> (r: Self)
        ensures
            r.toasts().len() == 0,
    {
        NotificationManager::new()
    }
}

// ---------------------------------------------------------------------------
// Shutdown
// ---------------------------------------------------------------------------

/// Cleanup run when the application exits.
pub trait ShutdownHook {
    /// Whether the hook may be run.
    spec fn can_run(&self) -> bool;

    fn run(&self)
        requires
            self.can_run(),
    ;
}

impl<F: Fn()> ShutdownHook for F {
    open spec fn can_run(&self) -> bool {
        call_requires(*self, ())
    }

    fn run(&self) {
        (self)()
    }
}

fn append<T>(item: T, list: &mut Vec<T>)
    ensures
        final(list)@ == old(list)@.push(item),
{
    list.push(item);
}

/// The hooks of `s`, the last first.
pub open spec fn newest_first<T>(s: Seq<T>) -> Seq<T>
    decreases s.len(),
{
    if s.len() == 0 {
        Seq::empty()
    } else {
        newest_first(s.drop_first()).push(s[0])
    }
}

/// Coordinates teardown: hooks run once, in reverse order of registration.
/// Each hook is known by its number: the count of hooks registered before it.
pub struct ShutdownCoordinator {
    hooks: Vec<Box<dyn ShutdownHook>>,
    numbers: Ghost<Seq<nat>>,
    count: Ghost<nat>,
    ran: Ghost<Seq<nat>>,
}

impl ShutdownCoordinator {
    /// The numbers of the hooks not run yet, in order of registration.
    pub closed spec fn pending_hooks(self) -> Seq<nat> {
        self.numbers@
    }

    /// How many hooks were ever registered.
    pub closed spec fn registered_count(self) -> nat {
        self.count@
    }

    /// The numbers of the hooks run so far, in the order they ran.
    pub closed spec fn ran(self) -> Seq<nat> {
        self.ran@
    }

    /// Hooks not run yet.
    pub open spec fn pending(self) -> int {
        self.pending_hooks().len() as int
    }

    /// Every pending hook may be run, and each pending hook has its number.
    pub closed spec fn wf(self) -> bool {
        &&& self.numbers@.len() == self.hooks@.len()
        &&& forall|i: int| 0 <= i < self.hooks@.len() ==> (#[trigger] self.hooks@[i]).can_run()
    }

    pub fn new() -> (r: Self)
        ensures
            r.wf(),
            r.pending_hooks() == Seq::<nat>::empty(),
            r.registered_count() == 0,
            r.ran() == Seq::<nat>::empty(),
    {
        ShutdownCoordinator {
            hooks: Vec::new(),
            numbers: Ghost(Seq::empty()),
            count: Ghost(0),
            ran: Ghost(Seq::empty()),
        }
    }

    /// Registers a cleanup hook, to run at exit before those registered earlier.
    pub fn register_hook(&mut self, hook: Box<dyn ShutdownHook>)
        requires
            old(self).wf(),
            hook.can_run(),
        ensures
            final(self).wf(),
            final(self).pending_hooks() == old(self).pending_hooks().push(old(self).registered_count()),
            final(self).registered_count() == old(self).registered_count() + 1,
            final(self).ran() == old(self).ran(),
    {
        append(hook, &mut self.hooks);
        proof {
            self.numbers@ = self.numbers@.push(self.count@);
            self.count@ = self.count@ + 1;
        }
    }

    /// Runs every registered hook once, the last registered first; none
    /// remains, so a second shutdown runs none.
    pub fn shutdown(&mut self)
        requires
            old(self).wf(),
        ensures
            final(self).wf(),
            final(self).pending_hooks().len() == 0,
            final(self).registered_count() == old(self).registered_count(),
            final(self).ran() == old(self).ran() + newest_first(old(self).pending_hooks()),
    {
        let ghost all = self.numbers@;
        let ghost start = self.ran@;
        assert(all.take(all.len() as int) =~= all);
        assert(all.skip(all.len() as int) =~= Seq::<nat>::empty());
        while self.hooks.len() > 0
            invariant
                self.wf(),
                self.count@ == old(self).count@,
                self.numbers@ == all.take(self.numbers@.len() as int),
                self.numbers@.len() <= all.len(),
                self.ran@ == start + newest_first(all.skip(self.numbers@.len() as int)),
            decreases self.hooks.len(),
        {
            let ghost n = self.numbers@.len();
            assert(self.hooks@[n - 1].can_run());
            let hook = self.hooks.pop().unwrap();
            assert(hook.can_run());
            hook.run();
            proof {
                let number = self.numbers@.last();
                assert(number == all[n - 1]);
                self.numbers@ = self.numbers@.drop_last();
                assert(all.take(n - 1) =~= all.take(n as int).drop_last());
                assert(all.skip(n - 1).drop_first() =~= all.skip(n as int));
                assert(all.skip(n - 1)[0] == all[n - 1]);
                self.ran@ = self.ran@.push(number);
                assert(self.ran@ =~= start + newest_first(all.skip(n - 1)));
            }
        }
        assert(all.skip(0) =~= all);
    }
}

} // verus!
