//! The commands that come in over the loopback interface.
use vstd::prelude::*;
use vstd::string::*;
use vstd::utf8::{decode_utf8, valid_utf8};

use crate::encoding::utf8_text;
use crate::number::{decimal, print_number};
use crate::settings::{start_check_is_read_back, Setting, Settings};
use crate::table::{TextMap, TextSet};
use crate::text::{
    as_lines, is_white_space, lemma_find_from_is, matches_at, same, split_at_char, split_of_free,
    split_on, texts, trim, trim_start, trimmed,
};
use crate::usage::{largest_first, row_views, rows_of, usage_rows, Usage, UsageRow};

verus! {

/// The two lists of addresses.
#[derive(Clone, Copy, Debug, PartialEq, Eq, Structural)]
pub enum ListName {
    /// Addresses that are slowed down.
    Black,
    /// Addresses that are turned away.
    Block,
}

/// What a command asks for.
#[derive(Clone, Copy, Debug, PartialEq, Eq, Structural)]
pub enum Verb {
    Help,
    Add(ListName),
    Remove(ListName),
    Show(ListName),
    Number(Setting),
    StartCheck,
    Usage,
    Other,
}

/// What is sent back.
pub enum Reply {
    /// This text.
    Text(String),
    /// This many hundredths, as a number with a fraction: see `write_hundredths`.
    Hundredths(usize),
    /// This many bits per second, as a number of megabits with a fraction: see `write_megabits`.
    Megabits(usize),
    /// The report on these rows.
    Usage(Vec<UsageRow>),
    /// Nothing; but the text, read as a number with a fraction, is to be assigned to the limit
    /// where it is above zero.
    Number(Setting, String),
    /// Nothing; the number of milliseconds does not fit.
    TooLong,
}

/// What the server is controlled by.
pub struct Control {
    pub blacklist: TextSet,
    pub blocklist: TextSet,
    pub settings: Settings,
    pub usage: TextMap<Usage>,
}

/// What the server is controlled by, as contracts speak of it.
pub struct ControlView {
    pub blacklist: Set<Seq<char>>,
    pub blocklist: Set<Seq<char>>,
    pub settings: Settings,
    pub usage: Map<Seq<char>, Usage>,
}

impl View for Control {
    type V = ControlView;

    open spec fn view(&self) -> ControlView {
        ControlView {
            blacklist: self.blacklist@,
            blocklist: self.blocklist@,
            settings: self.settings,
            usage: self.usage@,
        }
    }
}

impl ControlView {
    /// The list with this name.
    pub open spec fn list(self, name: ListName) -> Set<Seq<char>> {
        match name {
            ListName::Black => self.blacklist,
            ListName::Block => self.blocklist,
        }
    }

    /// The same with another list under this name.
    pub open spec fn with_list(self, name: ListName, list: Set<Seq<char>>) -> ControlView {
        match name {
            ListName::Black => ControlView { blacklist: list, ..self },
            ListName::Block => ControlView { blocklist: list, ..self },
        }
    }

    /// The same with this usage of a connection.
    pub open spec fn with_usage(self, id: Seq<char>, usage: Usage) -> ControlView {
        ControlView { usage: self.usage.insert(id, usage), ..self }
    }

    /// The same without the usage of a connection.
    pub open spec fn without_usage(self, id: Seq<char>) -> ControlView {
        ControlView { usage: self.usage.remove(id), ..self }
    }
}

/// What the first word of a command asks for.
pub open spec fn verb_of(word: Seq<char>) -> Verb {
    if word == "h"@ {
        Verb::Help
    } else if word == "blacklist-add"@ || word == "ba"@ {
        Verb::Add(ListName::Black)
    } else if word == "blacklist-remove"@ || word == "br"@ {
        Verb::Remove(ListName::Black)
    } else if word == "blacklist"@ || word == "b"@ {
        Verb::Show(ListName::Black)
    } else if word == "blocklist-add"@ || word == "Ba"@ {
        Verb::Add(ListName::Block)
    } else if word == "blocklist-remove"@ || word == "Br"@ {
        Verb::Remove(ListName::Block)
    } else if word == "blocklist"@ || word == "B"@ {
        Verb::Show(ListName::Block)
    } else if word == "downgrade-threshold"@ || word == "dt"@ {
        Verb::Number(Setting::DowngradeThreshold)
    } else if word == "downgrade-start-check"@ || word == "t"@ {
        Verb::StartCheck
    } else if word == "limit-speed"@ || word == "ls"@ {
        Verb::Number(Setting::LimitSpeed)
    } else if word == "total-bandwidth"@ || word == "tb"@ {
        Verb::Number(Setting::TotalBandwidth)
    } else if word == "single-bandwidth"@ || word == "sb"@ {
        Verb::Number(Setting::SingleBandwidth)
    } else if word == "usage"@ || word == "u"@ {
        Verb::Usage
    } else {
        Verb::Other
    }
}

/// The fields of a command: what stands between the blanks.
pub open spec fn fields(cmd: Seq<char>) -> Seq<Seq<char>> {
    split_on(trim(cmd), ' ')
}

/// What a command asks for.
pub open spec fn verb(cmd: Seq<char>) -> Verb {
    verb_of(fields(cmd)[0])
}

/// The field behind the first word.
pub open spec fn argument(cmd: Seq<char>) -> Option<Seq<char>> {
    if fields(cmd).len() > 1 {
        Some(fields(cmd)[1])
    } else {
        None
    }
}

/// The addresses that a field names.
pub open spec fn addresses(field: Seq<char>) -> Seq<Seq<char>> {
    split_on(field, '|')
}

/// What the server is controlled by after a command.
pub open spec fn control_after(c: ControlView, cmd: Seq<char>) -> ControlView {
    match (verb(cmd), argument(cmd)) {
        (Verb::Add(name), Some(field)) => c.with_list(
            name,
            c.list(name).union(addresses(field).to_set()),
        ),
        (Verb::Remove(name), Some(field)) => c.with_list(
            name,
            if field == "all"@ {
                Set::empty()
            } else {
                c.list(name).difference(addresses(field).to_set())
            },
        ),
        (Verb::StartCheck, Some(field)) => match c.settings.with_start_check(field) {
            Ok(s) => ControlView { settings: s, ..c },
            Err(_) => c,
        },
        _ => c,
    }
}

/// The text that lists the commands.
pub open spec fn help_text() -> Seq<char> {
    "blacklist-add(ba) <ip>\nblacklist-remove(br) <ip>\nblacklist(b) <ip>\nblocklist-add(Ba) <ip>\nblocklist-remove(Br) <ip>\nblocklist(B) <ip>\ndowngrade-threshold(dt) [value]\ndowngrade-start-check(t) [value(second)]\nlimit-speed(ls) [value(Mb/s)]\ntotal-bandwidth(tb) [value(Mb/s)]\nsingle-bandwidth(sb) [value(Mb/s)]\nusage(u)\n"@
}

impl Control {
    /// No address occurs twice in a list, and no connection in the usage table.
    pub open spec fn wf(&self) -> bool {
        self.blacklist.wf() && self.blocklist.wf() && self.usage.wf()
    }

    /// The addresses of a list in a row.
    pub open spec fn items(&self, name: ListName) -> Seq<Seq<char>> {
        match name {
            ListName::Black => self.blacklist.items(),
            ListName::Block => self.blocklist.items(),
        }
    }

    /// Whether this is what is sent back to a command.
    pub open spec fn answers(&self, cmd: Seq<char>, reply: Reply) -> bool {
        match (verb(cmd), argument(cmd)) {
            (Verb::Help, _) => reply matches Reply::Text(t) && t@ == help_text(),
            (Verb::Show(name), Some(field)) => reply matches Reply::Text(t) && t@ == (
            if self@.list(name).contains(field) {
                "true\n"@
            } else {
                "false\n"@
            }),
            (Verb::Show(name), None) => reply matches Reply::Text(t) && t@ == as_lines(
                self.items(name),
            ),
            (Verb::Number(setting), Some(field)) => reply matches Reply::Number(s, t) && s
                == setting && t@ == field,
            (Verb::Number(setting), None) => if setting == Setting::DowngradeThreshold {
                reply == Reply::Hundredths(self.settings.value_of(setting))
            } else {
                reply == Reply::Megabits(self.settings.value_of(setting))
            },
            (Verb::StartCheck, Some(field)) => match self.settings.with_start_check(field) {
                Ok(_) => reply matches Reply::Text(t) && t@ == Seq::<char>::empty(),
                Err(_) => reply == Reply::TooLong,
            },
            (Verb::StartCheck, None) => reply matches Reply::Text(t) && t@ == decimal(
                (self.settings.downgrade_start_check / 1000) as nat,
            ) + "s\n"@,
            (Verb::Usage, _) => reply matches Reply::Usage(rows) && row_views(rows@).to_multiset()
                == rows_of(self.usage.pairs()).to_multiset() && largest_first(row_views(rows@)),
            _ => reply matches Reply::Text(t) && t@ == Seq::<char>::empty(),
        }
    }

    /// Nothing listed, nothing used, and the limits that hold where nothing else is said.
    pub fn new() -> (c: Control)
        ensures
            c.wf(),
            c@.blacklist == Set::<Seq<char>>::empty(),
            c@.blocklist == Set::<Seq<char>>::empty(),
            c@.usage == Map::<Seq<char>, Usage>::empty(),
            c.settings == Settings::initial_settings(),
    {
        Control {
            blacklist: TextSet::new(),
            blocklist: TextSet::new(),
            settings: Settings::initial(),
            usage: TextMap::new(),
        }
    }

    /// Carries out a command.
    pub fn check_cmd(&mut self, cmd: &str) -> (reply: Reply)
        requires
            old(self).wf(),
        ensures
            final(self).wf(),
            final(self)@ == control_after(old(self)@, cmd@),
            old(self).answers(cmd@, reply),
    {
        let parts = split_at_char(trimmed(cmd).as_str(), ' ');
        assert(parts@[0]@ == fields(cmd@)[0]);
        let has_argument = parts.len() > 1;
        assert(has_argument ==> argument(cmd@) == Some(parts@[1]@));
        match read_verb(parts[0].as_str()) {
            Verb::Help => Reply::Text(write_help()),
            Verb::Add(name) => {
                if has_argument {
                    match name {
                        ListName::Black => add_all(&mut self.blacklist, parts[1].as_str()),
                        ListName::Block => add_all(&mut self.blocklist, parts[1].as_str()),
                    }
                }
                Reply::Text(String::new())
            },
            Verb::Remove(name) => {
                if has_argument {
                    match name {
                        ListName::Black => remove_all(&mut self.blacklist, parts[1].as_str()),
                        ListName::Block => remove_all(&mut self.blocklist, parts[1].as_str()),
                    }
                }
                Reply::Text(String::new())
            },
            Verb::Show(name) => {
                let list = match name {
                    ListName::Black => &self.blacklist,
                    ListName::Block => &self.blocklist,
                };
                if has_argument {
                    if list.contains(parts[1].as_str()) {
                        Reply::Text("true\n".to_owned())
                    } else {
                        Reply::Text("false\n".to_owned())
                    }
                } else {
                    Reply::Text(write_lines(&list.to_vec()))
                }
            },
            Verb::Number(setting) => {
                if has_argument {
                    Reply::Number(setting, parts[1].clone())
                } else if setting == Setting::DowngradeThreshold {
                    Reply::Hundredths(self.settings.get(setting))
                } else {
                    Reply::Megabits(self.settings.get(setting))
                }
            },
            Verb::StartCheck => {
                if has_argument {
                    match self.settings.assign_start_check(parts[1].as_str()) {
                        Ok(()) => Reply::Text(String::new()),
                        Err(_) => Reply::TooLong,
                    }
                } else {
                    let seconds: usize = self.settings.downgrade_start_check / 1000;
                    let mut t = print_number(seconds as u64);
                    t.append("s\n");
                    Reply::Text(t)
                }
            },
            Verb::Usage => Reply::Usage(usage_rows(&self.usage)),
            Verb::Other => Reply::Text(String::new()),
        }
    }

    /// Carries out a command that came as bytes. Bytes that are no text are not answered.
    pub fn check_bytes(&mut self, bytes: &[u8]) -> (reply: Option<Reply>)
        requires
            old(self).wf(),
        ensures
            final(self).wf(),
            match reply {
                Some(r) => valid_utf8(bytes@) && final(self)@ == control_after(
                    old(self)@,
                    decode_utf8(bytes@),
                ) && old(self).answers(decode_utf8(bytes@), r),
                None => !valid_utf8(bytes@) && *final(self) == *old(self),
            },
    {
        match utf8_text(bytes) {
            Some(cmd) => Some(self.check_cmd(cmd)),
            None => None,
        }
    }
}

fn write_help() -> (s: String)
    ensures
        s@ == help_text(),
{
    "blacklist-add(ba) <ip>\nblacklist-remove(br) <ip>\nblacklist(b) <ip>\nblocklist-add(Ba) <ip>\nblocklist-remove(Br) <ip>\nblocklist(B) <ip>\ndowngrade-threshold(dt) [value]\ndowngrade-start-check(t) [value(second)]\nlimit-speed(ls) [value(Mb/s)]\ntotal-bandwidth(tb) [value(Mb/s)]\nsingle-bandwidth(sb) [value(Mb/s)]\nusage(u)\n".to_owned()
}

/// What the first word of a command asks for.
pub fn read_verb(word: &str) -> (v: Verb)
    ensures
        v == verb_of(word@),
{
    if same(word, "h") {
        Verb::Help
    } else if same(word, "blacklist-add") || same(word, "ba") {
        Verb::Add(ListName::Black)
    } else if same(word, "blacklist-remove") || same(word, "br") {
        Verb::Remove(ListName::Black)
    } else if same(word, "blacklist") || same(word, "b") {
        Verb::Show(ListName::Black)
    } else if same(word, "blocklist-add") || same(word, "Ba") {
        Verb::Add(ListName::Block)
    } else if same(word, "blocklist-remove") || same(word, "Br") {
        Verb::Remove(ListName::Block)
    } else if same(word, "blocklist") || same(word, "B") {
        Verb::Show(ListName::Block)
    } else if same(word, "downgrade-threshold") || same(word, "dt") {
        Verb::Number(Setting::DowngradeThreshold)
    } else if same(word, "downgrade-start-check") || same(word, "t") {
        Verb::StartCheck
    } else if same(word, "limit-speed") || same(word, "ls") {
        Verb::Number(Setting::LimitSpeed)
    } else if same(word, "total-bandwidth") || same(word, "tb") {
        Verb::Number(Setting::TotalBandwidth)
    } else if same(word, "single-bandwidth") || same(word, "sb") {
        Verb::Number(Setting::SingleBandwidth)
    } else if same(word, "usage") || same(word, "u") {
        Verb::Usage
    } else {
        Verb::Other
    }
}

/// Puts the addresses that a field names into a list.
fn add_all(list: &mut TextSet, field: &str)
    requires
        old(list).wf(),
    ensures
        final(list).wf(),
        final(list)@ == old(list)@.union(addresses(field@).to_set()),
{
    let names = split_at_char(field, '|');
    let ghost all = addresses(field@);
    let ghost before = list@;
    let mut i: usize = 0;
    assert(all.take(0) =~= Seq::<Seq<char>>::empty());
    assert(list@ =~= before.union(all.take(0).to_set()));
    while i < names.len()
        invariant
            i <= names@.len() == all.len(),
            texts(names@) == all,
            list.wf(),
            list@ == before.union(all.take(i as int).to_set()),
        decreases names@.len() - i,
    {
        list.insert(names[i].clone());
        proof {
            assert(names@[i as int]@ == all[i as int]);
            lemma_take_to_set(all, i as int);
            assert(list@ =~= before.union(all.take(i + 1).to_set()));
        }
        i += 1;
    }
    assert(all.take(i as int) =~= all);
}

/// Takes the addresses that a field names out of a list, or all of them.
fn remove_all(list: &mut TextSet, field: &str)
    requires
        old(list).wf(),
    ensures
        final(list).wf(),
        final(list)@ == (if field@ == "all"@ {
            Set::<Seq<char>>::empty()
        } else {
            old(list)@.difference(addresses(field@).to_set())
        }),
{
    if same(field, "all") {
        list.clear();
        return;
    }
    let names = split_at_char(field, '|');
    let ghost all = addresses(field@);
    let ghost before = list@;
    let mut i: usize = 0;
    assert(all.take(0) =~= Seq::<Seq<char>>::empty());
    assert(list@ =~= before.difference(all.take(0).to_set()));
    while i < names.len()
        invariant
            i <= names@.len() == all.len(),
            texts(names@) == all,
            list.wf(),
            list@ == before.difference(all.take(i as int).to_set()),
        decreases names@.len() - i,
    {
        list.remove(names[i].as_str());
        proof {
            assert(names@[i as int]@ == all[i as int]);
            lemma_take_to_set(all, i as int);
            assert(list@ =~= before.difference(all.take(i + 1).to_set()));
        }
        i += 1;
    }
    assert(all.take(i as int) =~= all);
}

/// One item more is one element more.
pub proof fn lemma_take_to_set(s: Seq<Seq<char>>, i: int)
    requires
        0 <= i < s.len(),
    ensures
        s.take(i + 1).to_set() == s.take(i).to_set().insert(s[i]),
{
    let a = s.take(i + 1);
    let b = s.take(i);
    assert forall|x: Seq<char>| a.to_set().contains(x) <==> b.to_set().insert(s[i]).contains(x) by {
        if a.contains(x) {
            let k = choose|k: int| 0 <= k < a.len() && a[k] == x;
            if k < i {
                assert(b[k] == x);
            }
        }
        if b.contains(x) {
            let k = choose|k: int| 0 <= k < b.len() && b[k] == x;
            assert(a[k] == x);
        }
        assert(a[i] == s[i]);
    }
    assert(a.to_set() =~= b.to_set().insert(s[i]));
}

/// Writes the texts, each on a line of its own.
pub fn write_lines(items: &Vec<String>) -> (s: String)
    ensures
        s@ == as_lines(texts(items@)),
{
    let mut s = String::new();
    let mut i: usize = 0;
    let ghost all = texts(items@);
    assert(all.take(0) =~= Seq::<Seq<char>>::empty());
    while i < items.len()
        invariant
            i <= items@.len() == all.len(),
            all == texts(items@),
            s@ == as_lines(all.take(i as int)),
        decreases items@.len() - i,
    {
        s.append(items[i].as_str());
        s.push('\n');
        proof {
            assert(all.take(i + 1).drop_last() =~= all.take(i as int));
            assert(all.take(i + 1).last() == items@[i as int]@);
            assert(s@ =~= as_lines(all.take(i as int)) + all[i as int].push('\n'));
        }
        i += 1;
    }
    assert(all.take(i as int) =~= all);
    s
}

/// Writes the hundredths that are shown. The number with a fraction is a text of the caller's.
pub fn write_hundredths(number: &str) -> (s: String)
    ensures
        s@ == number@ + "\n"@,
{
    let mut s = number.to_owned();
    s.append("\n");
    s
}

/// Writes the megabits that are shown. The number with a fraction is a text of the caller's.
pub fn write_megabits(number: &str) -> (s: String)
    ensures
        s@ == number@ + "Mb/s\n"@,
{
    let mut s = number.to_owned();
    s.append("Mb/s\n");
    s
}

/// A command that is a word, one blank and a field has just these two fields.
pub proof fn command_is_read(word: Seq<char>, field: Seq<char>)
    requires
        word.len() > 0,
        field.len() > 0,
        !word.contains(' '),
        !field.contains(' '),
        !is_white_space(word[0]),
        !is_white_space(field.last()),
    ensures
        fields(word.push(' ') + field) == seq![word, field],
{
    let cmd = word.push(' ') + field;
    let pat = seq![' '];
    assert(cmd[0] == word[0]);
    assert(trim_start(cmd) == cmd);
    assert(cmd.last() == field.last());
    assert(trim(cmd) == cmd);
    let n = word.len() as int;
    assert(cmd.subrange(n, n + 1) =~= pat);
    assert forall|j: int| 0 <= j < n implies !matches_at(cmd, pat, j) by {
        if matches_at(cmd, pat, j) {
            assert(cmd.subrange(j, j + 1)[0] == pat[0]);
            assert(word[j] == ' ');
        }
    }
    lemma_find_from_is(cmd, pat, 0, n);
    assert(cmd.take(n) =~= word);
    assert(cmd.skip(n + 1) =~= field);
    split_of_free(field, ' ');
    assert(fields(cmd) =~= seq![word, field]);
}

/// Only additions to a list and removals from it change it, only the seconds before a check
/// change the limits, and no command changes the usage table.
pub proof fn commands_stay_apart(c: ControlView, cmd: Seq<char>, name: ListName)
    ensures
        verb(cmd) != Verb::Add(name) && verb(cmd) != Verb::Remove(name) ==> control_after(
            c,
            cmd,
        ).list(name) == c.list(name),
        verb(cmd) != Verb::StartCheck ==> control_after(c, cmd).settings == c.settings,
        control_after(c, cmd).usage == c.usage,
        argument(cmd) is None ==> control_after(c, cmd) == c,
{
}

/// An address that was added is listed, and asking for it is answered with `true`.
pub proof fn added_is_listed(
    c: ControlView,
    name: ListName,
    add: Seq<char>,
    field: Seq<char>,
    address: Seq<char>,
    later: Control,
    show: Seq<char>,
    reply: Reply,
)
    requires
        verb(add) == Verb::Add(name),
        argument(add) == Some(field),
        addresses(field).contains(address),
    ensures
        control_after(c, add).list(name).contains(address),
        later@ == control_after(c, add) && verb(show) == Verb::Show(name) && argument(show) == Some(
            address,
        ) && later.answers(show, reply) ==> (reply matches Reply::Text(t) && t@ == "true\n"@),
{
}

/// An address that was removed, by its name or with all others, is not listed any more, and
/// asking for it is answered with `false`.
pub proof fn removed_is_gone(
    c: ControlView,
    name: ListName,
    remove: Seq<char>,
    field: Seq<char>,
    address: Seq<char>,
    later: Control,
    show: Seq<char>,
    reply: Reply,
)
    requires
        verb(remove) == Verb::Remove(name),
        argument(remove) == Some(field),
        field == "all"@ || addresses(field).contains(address),
    ensures
        !control_after(c, remove).list(name).contains(address),
        later@ == control_after(c, remove) && verb(show) == Verb::Show(name) && argument(show)
            == Some(address) && later.answers(show, reply) ==> (reply matches Reply::Text(t) && t@
            == "false\n"@),
{
}

/// A limit that was changed is the one that is shown when it is asked for.
pub proof fn a_limit_is_shown(
    s: Settings,
    setting: Setting,
    value: usize,
    later: Control,
    show: Seq<char>,
    reply: Reply,
)
    requires
        later.settings == s.with(setting, value),
        verb(show) == Verb::Number(setting),
        argument(show) is None,
        later.answers(show, reply),
    ensures
        reply == (if setting == Setting::DowngradeThreshold {
            Reply::Hundredths(value)
        } else {
            Reply::Megabits(value)
        }),
{
}

/// Whole seconds that a command gave, above zero and such that their milliseconds fit, are shown
/// when they are asked for.
pub proof fn the_seconds_are_shown(
    c: ControlView,
    seconds: nat,
    change: Seq<char>,
    later: Control,
    show: Seq<char>,
    reply: Reply,
)
    requires
        0 < seconds,
        seconds * 1000 <= usize::MAX,
        verb(change) == Verb::StartCheck,
        argument(change) == Some(decimal(seconds)),
        later@ == control_after(c, change),
        verb(show) == Verb::StartCheck,
        argument(show) is None,
        later.answers(show, reply),
    ensures
        reply matches Reply::Text(t) && t@ == decimal(seconds) + "s\n"@,
{
    start_check_is_read_back(c.settings, seconds);
}

/// Removing what was just added gives back what was there before, if none of it was listed.
pub proof fn remove_undoes_add(
    c: ControlView,
    name: ListName,
    add: Seq<char>,
    remove: Seq<char>,
    field: Seq<char>,
)
    requires
        verb(add) == Verb::Add(name),
        verb(remove) == Verb::Remove(name),
        argument(add) == Some(field),
        argument(remove) == Some(field),
        field != "all"@,
        forall|a: Seq<char>| addresses(field).contains(a) ==> !c.list(name).contains(a),
    ensures
        control_after(control_after(c, add), remove) == c,
{
    let after = control_after(control_after(c, add), remove);
    assert forall|a: Seq<char>| after.list(name).contains(a) <==> c.list(name).contains(a) by {
        assert(addresses(field).to_set().contains(a) <==> addresses(field).contains(a));
    }
    assert(after.list(name) =~= c.list(name));
}

} // verus!
