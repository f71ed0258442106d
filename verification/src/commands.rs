//! What the commands do, as they are typed.
use vstd::prelude::*;

use crate::console::{
    argument, command_is_read, control_after, fields, help_text, verb, verb_of, Control,
    ControlView, ListName, Reply, Verb,
};
use crate::number::{decimal, number};
use crate::settings::Setting;
use crate::text::{
    as_lines, is_white_space, split_of_free, split_of_sum, split_on, trim, trim_of_padded,
    trim_start,
};
use crate::usage::{row_views, the_report_is_complete};

verus! {

/// A word, one blank and a field.
pub open spec fn typed(word: Seq<char>, field: Seq<char>) -> Seq<char> {
    word + " "@ + field
}

/// Whether a text can be typed as a field: it is not empty, holds no blank and does not end with
/// white space.
pub open spec fn is_field(field: Seq<char>) -> bool {
    field.len() > 0 && !field.contains(' ') && !is_white_space(field.last())
}

/// Whether a word is made of letters and dashes.
spec fn is_plain(word: Seq<char>) -> bool {
    word.len() > 0 && forall|i: int|
        0 <= i < word.len() ==> 'a' <= (#[trigger] word[i]) <= 'z' || word[i] == 'B' || word[i]
            == '-'
}

/// The words are made of letters and dashes.
proof fn lemma_plain_a()
    ensures
        is_plain("h"@),
        is_plain("blacklist-add"@),
        is_plain("ba"@),
        is_plain("blacklist-remove"@),
        is_plain("br"@),
        is_plain("blacklist"@),
        is_plain("b"@),
        is_plain("blocklist-add"@),
        is_plain("Ba"@),
{
    assert(is_plain("h"@)) by {
        reveal_strlit("h");
        assert("h"@ =~= seq!['h']);
    }
    assert(is_plain("blacklist-add"@)) by {
        reveal_strlit("blacklist-add");
        assert("blacklist-add"@ =~= seq!['b', 'l', 'a', 'c', 'k', 'l', 'i', 's', 't', '-', 'a', 'd', 'd']);
    }
    assert(is_plain("ba"@)) by {
        reveal_strlit("ba");
        assert("ba"@ =~= seq!['b', 'a']);
    }
    assert(is_plain("blacklist-remove"@)) by {
        reveal_strlit("blacklist-remove");
        assert("blacklist-remove"@ =~= seq!['b', 'l', 'a', 'c', 'k', 'l', 'i', 's', 't', '-', 'r', 'e', 'm', 'o', 'v', 'e']);
    }
    assert(is_plain("br"@)) by {
        reveal_strlit("br");
        assert("br"@ =~= seq!['b', 'r']);
    }
    assert(is_plain("blacklist"@)) by {
        reveal_strlit("blacklist");
        assert("blacklist"@ =~= seq!['b', 'l', 'a', 'c', 'k', 'l', 'i', 's', 't']);
    }
    assert(is_plain("b"@)) by {
        reveal_strlit("b");
        assert("b"@ =~= seq!['b']);
    }
    assert(is_plain("blocklist-add"@)) by {
        reveal_strlit("blocklist-add");
        assert("blocklist-add"@ =~= seq!['b', 'l', 'o', 'c', 'k', 'l', 'i', 's', 't', '-', 'a', 'd', 'd']);
    }
    assert(is_plain("Ba"@)) by {
        reveal_strlit("Ba");
        assert("Ba"@ =~= seq!['B', 'a']);
    }
}

proof fn lemma_plain_b()
    ensures
        is_plain("blocklist-remove"@),
        is_plain("Br"@),
        is_plain("blocklist"@),
        is_plain("B"@),
        is_plain("downgrade-threshold"@),
        is_plain("dt"@),
        is_plain("downgrade-start-check"@),
        is_plain("t"@),
{
    assert(is_plain("blocklist-remove"@)) by {
        reveal_strlit("blocklist-remove");
        assert("blocklist-remove"@ =~= seq!['b', 'l', 'o', 'c', 'k', 'l', 'i', 's', 't', '-', 'r', 'e', 'm', 'o', 'v', 'e']);
    }
    assert(is_plain("Br"@)) by {
        reveal_strlit("Br");
        assert("Br"@ =~= seq!['B', 'r']);
    }
    assert(is_plain("blocklist"@)) by {
        reveal_strlit("blocklist");
        assert("blocklist"@ =~= seq!['b', 'l', 'o', 'c', 'k', 'l', 'i', 's', 't']);
    }
    assert(is_plain("B"@)) by {
        reveal_strlit("B");
        assert("B"@ =~= seq!['B']);
    }
    assert(is_plain("downgrade-threshold"@)) by {
        reveal_strlit("downgrade-threshold");
        assert("downgrade-threshold"@ =~= seq!['d', 'o', 'w', 'n', 'g', 'r', 'a', 'd', 'e', '-', 't', 'h', 'r', 'e', 's', 'h', 'o', 'l', 'd']);
    }
    assert(is_plain("dt"@)) by {
        reveal_strlit("dt");
        assert("dt"@ =~= seq!['d', 't']);
    }
    assert(is_plain("downgrade-start-check"@)) by {
        reveal_strlit("downgrade-start-check");
        assert("downgrade-start-check"@ =~= seq!['d', 'o', 'w', 'n', 'g', 'r', 'a', 'd', 'e', '-', 's', 't', 'a', 'r', 't', '-', 'c', 'h', 'e', 'c', 'k']);
    }
    assert(is_plain("t"@)) by {
        reveal_strlit("t");
        assert("t"@ =~= seq!['t']);
    }
}

proof fn lemma_plain_c()
    ensures
        is_plain("limit-speed"@),
        is_plain("ls"@),
        is_plain("total-bandwidth"@),
        is_plain("tb"@),
        is_plain("single-bandwidth"@),
        is_plain("sb"@),
        is_plain("usage"@),
        is_plain("u"@),
{
    assert(is_plain("limit-speed"@)) by {
        reveal_strlit("limit-speed");
        assert("limit-speed"@ =~= seq!['l', 'i', 'm', 'i', 't', '-', 's', 'p', 'e', 'e', 'd']);
    }
    assert(is_plain("ls"@)) by {
        reveal_strlit("ls");
        assert("ls"@ =~= seq!['l', 's']);
    }
    assert(is_plain("total-bandwidth"@)) by {
        reveal_strlit("total-bandwidth");
        assert("total-bandwidth"@ =~= seq!['t', 'o', 't', 'a', 'l', '-', 'b', 'a', 'n', 'd', 'w', 'i', 'd', 't', 'h']);
    }
    assert(is_plain("tb"@)) by {
        reveal_strlit("tb");
        assert("tb"@ =~= seq!['t', 'b']);
    }
    assert(is_plain("single-bandwidth"@)) by {
        reveal_strlit("single-bandwidth");
        assert("single-bandwidth"@ =~= seq!['s', 'i', 'n', 'g', 'l', 'e', '-', 'b', 'a', 'n', 'd', 'w', 'i', 'd', 't', 'h']);
    }
    assert(is_plain("sb"@)) by {
        reveal_strlit("sb");
        assert("sb"@ =~= seq!['s', 'b']);
    }
    assert(is_plain("usage"@)) by {
        reveal_strlit("usage");
        assert("usage"@ =~= seq!['u', 's', 'a', 'g', 'e']);
    }
    assert(is_plain("u"@)) by {
        reveal_strlit("u");
        assert("u"@ =~= seq!['u']);
    }
}

/// What each of the words asks for.
proof fn lemma_words()
    ensures
        verb_of("h"@) == Verb::Help,
        verb_of("blacklist-add"@) == Verb::Add(ListName::Black),
        verb_of("ba"@) == Verb::Add(ListName::Black),
        verb_of("blacklist-remove"@) == Verb::Remove(ListName::Black),
        verb_of("br"@) == Verb::Remove(ListName::Black),
        verb_of("blacklist"@) == Verb::Show(ListName::Black),
        verb_of("b"@) == Verb::Show(ListName::Black),
        verb_of("blocklist-add"@) == Verb::Add(ListName::Block),
        verb_of("Ba"@) == Verb::Add(ListName::Block),
        verb_of("blocklist-remove"@) == Verb::Remove(ListName::Block),
        verb_of("Br"@) == Verb::Remove(ListName::Block),
        verb_of("blocklist"@) == Verb::Show(ListName::Block),
        verb_of("B"@) == Verb::Show(ListName::Block),
        verb_of("downgrade-threshold"@) == Verb::Number(Setting::DowngradeThreshold),
        verb_of("dt"@) == Verb::Number(Setting::DowngradeThreshold),
        verb_of("downgrade-start-check"@) == Verb::StartCheck,
        verb_of("t"@) == Verb::StartCheck,
        verb_of("limit-speed"@) == Verb::Number(Setting::LimitSpeed),
        verb_of("ls"@) == Verb::Number(Setting::LimitSpeed),
        verb_of("total-bandwidth"@) == Verb::Number(Setting::TotalBandwidth),
        verb_of("tb"@) == Verb::Number(Setting::TotalBandwidth),
        verb_of("single-bandwidth"@) == Verb::Number(Setting::SingleBandwidth),
        verb_of("sb"@) == Verb::Number(Setting::SingleBandwidth),
        verb_of("usage"@) == Verb::Usage,
        verb_of("u"@) == Verb::Usage,
{
    reveal_strlit("h");
    assert("h"@.len() == 1);
    reveal_strlit("blacklist-add");
    assert("blacklist-add"@.len() == 13);
    reveal_strlit("ba");
    assert("ba"@.len() == 2);
    reveal_strlit("blacklist-remove");
    assert("blacklist-remove"@.len() == 16);
    reveal_strlit("br");
    assert("br"@.len() == 2);
    reveal_strlit("blacklist");
    assert("blacklist"@.len() == 9);
    reveal_strlit("b");
    assert("b"@.len() == 1);
    reveal_strlit("blocklist-add");
    assert("blocklist-add"@.len() == 13);
    reveal_strlit("Ba");
    assert("Ba"@.len() == 2);
    reveal_strlit("blocklist-remove");
    assert("blocklist-remove"@.len() == 16);
    reveal_strlit("Br");
    assert("Br"@.len() == 2);
    reveal_strlit("blocklist");
    assert("blocklist"@.len() == 9);
    reveal_strlit("B");
    assert("B"@.len() == 1);
    reveal_strlit("downgrade-threshold");
    assert("downgrade-threshold"@.len() == 19);
    reveal_strlit("dt");
    assert("dt"@.len() == 2);
    reveal_strlit("downgrade-start-check");
    assert("downgrade-start-check"@.len() == 21);
    reveal_strlit("t");
    assert("t"@.len() == 1);
    reveal_strlit("limit-speed");
    assert("limit-speed"@.len() == 11);
    reveal_strlit("ls");
    assert("ls"@.len() == 2);
    reveal_strlit("total-bandwidth");
    assert("total-bandwidth"@.len() == 15);
    reveal_strlit("tb");
    assert("tb"@.len() == 2);
    reveal_strlit("single-bandwidth");
    assert("single-bandwidth"@.len() == 16);
    reveal_strlit("sb");
    assert("sb"@.len() == 2);
    reveal_strlit("usage");
    assert("usage"@.len() == 5);
    reveal_strlit("u");
    assert("u"@.len() == 1);
    assert("h"@[0] == 'h');
    assert("b"@[0] == 'b');
    assert("B"@[0] == 'B');
    assert("t"@[0] == 't');
    assert("u"@[0] == 'u');
    assert("blacklist-add"@[2] == 'a');
    assert("blocklist-add"@[2] == 'o');
    assert("ba"@[0] == 'b' && "ba"@[1] == 'a');
    assert("br"@[0] == 'b' && "br"@[1] == 'r');
    assert("Ba"@[0] == 'B' && "Ba"@[1] == 'a');
    assert("Br"@[0] == 'B' && "Br"@[1] == 'r');
    assert("dt"@[0] == 'd' && "dt"@[1] == 't');
    assert("ls"@[0] == 'l' && "ls"@[1] == 's');
    assert("tb"@[0] == 't' && "tb"@[1] == 'b');
    assert("sb"@[0] == 's' && "sb"@[1] == 'b');
    assert("blacklist-remove"@[2] == 'a');
    assert("blocklist-remove"@[2] == 'o');
    assert("single-bandwidth"@[2] == 'n');
    assert("blacklist"@[2] == 'a');
    assert("blocklist"@[2] == 'o');
}

/// A plain word and a field are read as they were typed, and so is a plain word alone.
proof fn lemma_typed(word: Seq<char>, field: Seq<char>)
    requires
        is_plain(word),
    ensures
        is_field(field) ==> verb(typed(word, field)) == verb_of(word) && argument(
            typed(word, field),
        ) == Some(field),
        verb(word) == verb_of(word),
        argument(word) is None,
{
    reveal_strlit(" ");
    if word.contains(' ') {
        let i = choose|i: int| 0 <= i < word.len() && word[i] == ' ';
        assert(word[i] != ' ');
    }
    assert(!is_white_space(word[0]));
    assert(!is_white_space(word[word.len() - 1]));
    assert(trim_start(word) == word);
    assert(trim(word) == word);
    split_of_free(word, ' ');
    if is_field(field) {
        assert(typed(word, field) =~= word.push(' ') + field);
        command_is_read(word, field);
    }
}

/// Whether a list is what it was and all that a field names between its bars.
pub open spec fn grown(before: Set<Seq<char>>, after: Set<Seq<char>>, field: Seq<char>) -> bool {
    forall|x: Seq<char>|
        #[trigger] after.contains(x) <==> before.contains(x) || split_on(field, '|').contains(x)
}

/// Whether a list is what it was without all that a field names between its bars.
pub open spec fn shrunk(before: Set<Seq<char>>, after: Set<Seq<char>>, field: Seq<char>) -> bool {
    forall|x: Seq<char>|
        #[trigger] after.contains(x) <==> before.contains(x) && !split_on(field, '|').contains(x)
}

/// `blacklist-add` and `ba` put what they name on the blacklist, and change nothing else.
pub proof fn blacklist_add(c: ControlView, field: Seq<char>, later: Control, reply: Reply)
    requires
        is_field(field),
    ensures
        ({
            let after = control_after(c, typed("blacklist-add"@, field));
            &&& after == ControlView { blacklist: after.blacklist, ..c }
            &&& grown(c.blacklist, after.blacklist, field)
            &&& !field.contains('|') ==> after.blacklist == c.blacklist.insert(field)
            &&& control_after(c, typed("ba"@, field)) == after
        }),
        control_after(c, "blacklist-add"@) == c,
        control_after(c, "ba"@) == c,
        later.answers(typed("blacklist-add"@, field), reply) || later.answers(
            typed("ba"@, field),
            reply,
        ) || later.answers("blacklist-add"@, reply) || later.answers("ba"@, reply) ==> (
        reply matches Reply::Text(t) && t@.len() == 0),
{
    lemma_words();
    lemma_plain_a();
    lemma_typed("blacklist-add"@, field);
    lemma_typed("ba"@, field);
    let after = control_after(c, typed("blacklist-add"@, field));
    assert forall|x: Seq<char>|
        #[trigger] after.blacklist.contains(x) <==> c.blacklist.contains(x) || split_on(
            field,
            '|',
        ).contains(x) by {
        assert(split_on(field, '|').to_set().contains(x) <==> split_on(field, '|').contains(x));
    }
    if !field.contains('|') {
        split_of_free(field, '|');
        lemma_single(field);
        assert(after.blacklist =~= c.blacklist.insert(field));
    }
}

/// `blocklist-add` and `Ba` put what they name on the blocklist, and change nothing else.
pub proof fn blocklist_add(c: ControlView, field: Seq<char>, later: Control, reply: Reply)
    requires
        is_field(field),
    ensures
        ({
            let after = control_after(c, typed("blocklist-add"@, field));
            &&& after == ControlView { blocklist: after.blocklist, ..c }
            &&& grown(c.blocklist, after.blocklist, field)
            &&& !field.contains('|') ==> after.blocklist == c.blocklist.insert(field)
            &&& control_after(c, typed("Ba"@, field)) == after
        }),
        control_after(c, "blocklist-add"@) == c,
        control_after(c, "Ba"@) == c,
        later.answers(typed("blocklist-add"@, field), reply) || later.answers(
            typed("Ba"@, field),
            reply,
        ) || later.answers("blocklist-add"@, reply) || later.answers("Ba"@, reply) ==> (
        reply matches Reply::Text(t) && t@.len() == 0),
{
    lemma_words();
    lemma_plain_a();
    lemma_typed("blocklist-add"@, field);
    lemma_typed("Ba"@, field);
    let after = control_after(c, typed("blocklist-add"@, field));
    assert forall|x: Seq<char>|
        #[trigger] after.blocklist.contains(x) <==> c.blocklist.contains(x) || split_on(
            field,
            '|',
        ).contains(x) by {
        assert(split_on(field, '|').to_set().contains(x) <==> split_on(field, '|').contains(x));
    }
    if !field.contains('|') {
        split_of_free(field, '|');
        lemma_single(field);
        assert(after.blocklist =~= c.blocklist.insert(field));
    }
}

proof fn lemma_single(field: Seq<char>)
    ensures
        seq![field].to_set() == set![field],
{
    let s = seq![field];
    assert forall|x: Seq<char>| s.to_set().contains(x) <==> set![field].contains(x) by {
        if x == field {
            assert(s[0] == x);
        }
    }
    assert(s.to_set() =~= set![field]);
}

/// `blacklist-remove` and `br` take what they name off the blacklist, or everything where that is
/// `all`, and change nothing else.
pub proof fn blacklist_remove(c: ControlView, field: Seq<char>, later: Control, reply: Reply)
    requires
        is_field(field),
    ensures
        ({
            let after = control_after(c, typed("blacklist-remove"@, field));
            &&& after == ControlView { blacklist: after.blacklist, ..c }
            &&& field == "all"@ ==> after.blacklist == Set::<Seq<char>>::empty()
            &&& field != "all"@ ==> shrunk(c.blacklist, after.blacklist, field)
            &&& field != "all"@ && !field.contains('|') ==> after.blacklist == c.blacklist.remove(
                field,
            )
            &&& control_after(c, typed("br"@, field)) == after
        }),
        control_after(c, "blacklist-remove"@) == c,
        control_after(c, "br"@) == c,
        later.answers(typed("blacklist-remove"@, field), reply) || later.answers(
            typed("br"@, field),
            reply,
        ) || later.answers("blacklist-remove"@, reply) || later.answers("br"@, reply) ==> (
        reply matches Reply::Text(t) && t@.len() == 0),
{
    lemma_words();
    lemma_plain_a();
    lemma_plain_b();
    lemma_typed("blacklist-remove"@, field);
    lemma_typed("br"@, field);
    let after = control_after(c, typed("blacklist-remove"@, field));
    assert forall|x: Seq<char>| field != "all"@ implies (#[trigger] after.blacklist.contains(x)
        <==> c.blacklist.contains(x) && !split_on(field, '|').contains(x)) by {
        assert(split_on(field, '|').to_set().contains(x) <==> split_on(field, '|').contains(x));
    }
    if field != "all"@ && !field.contains('|') {
        split_of_free(field, '|');
        lemma_single(field);
        assert(after.blacklist =~= c.blacklist.remove(field));
    }
}

/// `blocklist-remove` and `Br` take what they name off the blocklist, or everything where that is
/// `all`, and change nothing else.
pub proof fn blocklist_remove(c: ControlView, field: Seq<char>, later: Control, reply: Reply)
    requires
        is_field(field),
    ensures
        ({
            let after = control_after(c, typed("blocklist-remove"@, field));
            &&& after == ControlView { blocklist: after.blocklist, ..c }
            &&& field == "all"@ ==> after.blocklist == Set::<Seq<char>>::empty()
            &&& field != "all"@ ==> shrunk(c.blocklist, after.blocklist, field)
            &&& field != "all"@ && !field.contains('|') ==> after.blocklist == c.blocklist.remove(
                field,
            )
            &&& control_after(c, typed("Br"@, field)) == after
        }),
        control_after(c, "blocklist-remove"@) == c,
        control_after(c, "Br"@) == c,
        later.answers(typed("blocklist-remove"@, field), reply) || later.answers(
            typed("Br"@, field),
            reply,
        ) || later.answers("blocklist-remove"@, reply) || later.answers("Br"@, reply) ==> (
        reply matches Reply::Text(t) && t@.len() == 0),
{
    lemma_words();
    lemma_plain_b();
    lemma_typed("blocklist-remove"@, field);
    lemma_typed("Br"@, field);
    let after = control_after(c, typed("blocklist-remove"@, field));
    assert forall|x: Seq<char>| field != "all"@ implies (#[trigger] after.blocklist.contains(x)
        <==> c.blocklist.contains(x) && !split_on(field, '|').contains(x)) by {
        assert(split_on(field, '|').to_set().contains(x) <==> split_on(field, '|').contains(x));
    }
    if field != "all"@ && !field.contains('|') {
        split_of_free(field, '|');
        lemma_single(field);
        assert(after.blocklist =~= c.blocklist.remove(field));
    }
}

/// `blacklist` and `b` say whether an address is on the blacklist, or write all of it, an address
/// a line; they change nothing.
pub proof fn blacklist_show(c: Control, field: Seq<char>, reply: Reply)
    requires
        is_field(field),
    ensures
        c.answers(typed("blacklist"@, field), reply) || c.answers(typed("b"@, field), reply) ==> (
        reply matches Reply::Text(t) && (t@ == "true\n"@ <==> c.blacklist@.contains(field)) && (t@
            == "false\n"@ <==> !c.blacklist@.contains(field))),
        c.answers("blacklist"@, reply) || c.answers("b"@, reply) ==> (reply matches Reply::Text(t)
            && t@ == as_lines(c.blacklist.items())),
        control_after(c@, typed("blacklist"@, field)) == c@,
        control_after(c@, typed("b"@, field)) == c@,
        control_after(c@, "blacklist"@) == c@,
        control_after(c@, "b"@) == c@,
{
    lemma_words();
    lemma_plain_a();
    lemma_typed("blacklist"@, field);
    lemma_typed("b"@, field);
    reveal_strlit("true\n");
    reveal_strlit("false\n");
    assert("true\n"@.len() != "false\n"@.len());
}

/// `blocklist` and `B` say whether an address is on the blocklist, or write all of it, an address
/// a line; they change nothing.
pub proof fn blocklist_show(c: Control, field: Seq<char>, reply: Reply)
    requires
        is_field(field),
    ensures
        c.answers(typed("blocklist"@, field), reply) || c.answers(typed("B"@, field), reply) ==> (
        reply matches Reply::Text(t) && (t@ == "true\n"@ <==> c.blocklist@.contains(field)) && (t@
            == "false\n"@ <==> !c.blocklist@.contains(field))),
        c.answers("blocklist"@, reply) || c.answers("B"@, reply) ==> (reply matches Reply::Text(t)
            && t@ == as_lines(c.blocklist.items())),
        control_after(c@, typed("blocklist"@, field)) == c@,
        control_after(c@, typed("B"@, field)) == c@,
        control_after(c@, "blocklist"@) == c@,
        control_after(c@, "B"@) == c@,
{
    lemma_words();
    lemma_plain_b();
    lemma_typed("blocklist"@, field);
    lemma_typed("B"@, field);
    reveal_strlit("true\n");
    reveal_strlit("false\n");
    assert("true\n"@.len() != "false\n"@.len());
}

/// `downgrade-threshold`, `limit-speed`, `total-bandwidth` and `single-bandwidth`, or `dt`, `ls`,
/// `tb` and `sb`, hand the field on as the new number for just their limit, and show that limit
/// where there is no field.
pub proof fn limits_are_set_and_shown(c: Control, field: Seq<char>, reply: Reply)
    requires
        is_field(field),
    ensures
        c.answers(typed("downgrade-threshold"@, field), reply) || c.answers(
            typed("dt"@, field),
            reply,
        ) ==> (reply matches Reply::Number(s, t) && s == Setting::DowngradeThreshold && t@
            == field),
        c.answers(typed("limit-speed"@, field), reply) || c.answers(typed("ls"@, field), reply)
            ==> (reply matches Reply::Number(s, t) && s == Setting::LimitSpeed && t@ == field),
        c.answers(typed("total-bandwidth"@, field), reply) || c.answers(typed("tb"@, field), reply)
            ==> (reply matches Reply::Number(s, t) && s == Setting::TotalBandwidth && t@ == field),
        c.answers(typed("single-bandwidth"@, field), reply) || c.answers(typed("sb"@, field), reply)
            ==> (reply matches Reply::Number(s, t) && s == Setting::SingleBandwidth && t@ == field),
        c.answers("downgrade-threshold"@, reply) || c.answers("dt"@, reply) ==> reply
            == Reply::Hundredths(c.settings.downgrade_threshold),
        c.answers("limit-speed"@, reply) || c.answers("ls"@, reply) ==> reply == Reply::Megabits(
            c.settings.limit_speed,
        ),
        c.answers("total-bandwidth"@, reply) || c.answers("tb"@, reply) ==> reply
            == Reply::Megabits(c.settings.total_bandwidth),
        c.answers("single-bandwidth"@, reply) || c.answers("sb"@, reply) ==> reply
            == Reply::Megabits(c.settings.single_bandwidth),
{
    lemma_words();
    lemma_plain_b();
    lemma_plain_c();
    lemma_typed("downgrade-threshold"@, field);
    lemma_typed("dt"@, field);
    lemma_typed("limit-speed"@, field);
    lemma_typed("ls"@, field);
    lemma_typed("total-bandwidth"@, field);
    lemma_typed("tb"@, field);
    lemma_typed("single-bandwidth"@, field);
    lemma_typed("sb"@, field);
}

/// The commands on a limit change nothing by themselves.
pub proof fn limits_wait_for_the_number(c: ControlView, field: Seq<char>)
    requires
        is_field(field),
    ensures
        control_after(c, typed("downgrade-threshold"@, field)) == c,
        control_after(c, typed("dt"@, field)) == c,
        control_after(c, typed("limit-speed"@, field)) == c,
        control_after(c, typed("ls"@, field)) == c,
        control_after(c, typed("total-bandwidth"@, field)) == c,
        control_after(c, typed("tb"@, field)) == c,
        control_after(c, typed("single-bandwidth"@, field)) == c,
        control_after(c, typed("sb"@, field)) == c,
        control_after(c, "downgrade-threshold"@) == c,
        control_after(c, "dt"@) == c,
        control_after(c, "limit-speed"@) == c,
        control_after(c, "ls"@) == c,
        control_after(c, "total-bandwidth"@) == c,
        control_after(c, "tb"@) == c,
        control_after(c, "single-bandwidth"@) == c,
        control_after(c, "sb"@) == c,
{
    lemma_words();
    lemma_plain_b();
    lemma_plain_c();
    lemma_typed("downgrade-threshold"@, field);
    lemma_typed("dt"@, field);
    lemma_typed("limit-speed"@, field);
    lemma_typed("ls"@, field);
    lemma_typed("total-bandwidth"@, field);
    lemma_typed("tb"@, field);
    lemma_typed("single-bandwidth"@, field);
    lemma_typed("sb"@, field);
}

/// `downgrade-start-check` and `t` take the seconds over in milliseconds where the field is a
/// number above zero and the milliseconds fit. Where they do not fit, that is said; any other
/// field changes nothing and is answered with nothing. Nothing else ever changes.
pub proof fn seconds_are_set(c: Control, field: Seq<char>, reply: Reply)
    requires
        is_field(field),
    ensures
        ({
            let after = control_after(c@, typed("downgrade-start-check"@, field));
            let told = c.answers(typed("downgrade-start-check"@, field), reply) || c.answers(
                typed("t"@, field),
                reply,
            );
            &&& control_after(c@, typed("t"@, field)) == after
            &&& after.blacklist == c.blacklist@ && after.blocklist == c.blocklist@ && after.usage
                == c.usage@
            &&& after.settings.downgrade_threshold == c.settings.downgrade_threshold
            &&& after.settings.limit_speed == c.settings.limit_speed
            &&& after.settings.total_bandwidth == c.settings.total_bandwidth
            &&& after.settings.single_bandwidth == c.settings.single_bandwidth
            &&& match number(field, usize::MAX as nat) {
                Ok(seconds) => if seconds * 1000 <= usize::MAX {
                    &&& after.settings.downgrade_start_check == (if seconds > 0 {
                        seconds * 1000
                    } else {
                        c.settings.downgrade_start_check as nat
                    })
                    &&& told ==> (reply matches Reply::Text(t) && t@.len() == 0)
                } else {
                    &&& after == c@
                    &&& told ==> reply is TooLong
                },
                Err(_) => {
                    &&& after == c@
                    &&& told ==> (reply matches Reply::Text(t) && t@.len() == 0)
                },
            }
        }),
{
    lemma_words();
    lemma_plain_b();
    lemma_typed("downgrade-start-check"@, field);
    lemma_typed("t"@, field);
}

/// `downgrade-start-check` and `t` alone show the seconds, rounded down, and change nothing.
pub proof fn seconds_are_shown(c: Control, field: Seq<char>, reply: Reply)
    ensures
        c.answers("downgrade-start-check"@, reply) || c.answers("t"@, reply) ==> (
        reply matches Reply::Text(t) && exists|seconds: nat|
            t@ == #[trigger] decimal(seconds) + "s\n"@ && seconds * 1000
                <= c.settings.downgrade_start_check < (seconds + 1) * 1000),
        control_after(c@, "downgrade-start-check"@) == c@,
        control_after(c@, "t"@) == c@,
{
    lemma_words();
    lemma_plain_b();
    lemma_typed("downgrade-start-check"@, field);
    lemma_typed("t"@, field);
    let seconds = (c.settings.downgrade_start_check / 1000) as nat;
    assert(seconds * 1000 <= c.settings.downgrade_start_check < (seconds + 1) * 1000);
    if c.answers("t"@, reply) || c.answers("downgrade-start-check"@, reply) {
        assert(reply matches Reply::Text(t) && t@ == decimal(seconds) + "s\n"@);
    }
}

/// `usage` and `u`, with or without a field, report each connection that has been relayed for a
/// while, and no other, those through which the most went first; they change nothing.
pub proof fn usage_is_reported(c: Control, field: Seq<char>, reply: Reply, id: Seq<char>)
    requires
        c.wf(),
        is_field(field),
        c.answers("usage"@, reply) || c.answers("u"@, reply) || c.answers(
            typed("usage"@, field),
            reply,
        ) || c.answers(typed("u"@, field), reply),
    ensures
        reply matches Reply::Usage(rows) && (forall|i: int, j: int|
            0 <= i < j < rows.len() ==> (#[trigger] rows@[i]).total >= (#[trigger] rows@[j]).total)
            && (forall|i: int|
            0 <= i < rows.len() ==> c.usage@.contains_key((#[trigger] rows@[i]).ip@)
                && c.usage@[rows@[i].ip@].elapsed != 0 && rows@[i].total
                == c.usage@[rows@[i].ip@].total) && (c.usage@.contains_key(id)
            && c.usage@[id].elapsed != 0 ==> exists|i: int|
            0 <= i < rows.len() && (#[trigger] rows@[i]).ip@ == id),
        control_after(c@, "usage"@) == c@,
        control_after(c@, "u"@) == c@,
        control_after(c@, typed("usage"@, field)) == c@,
        control_after(c@, typed("u"@, field)) == c@,
{
    lemma_words();
    lemma_plain_c();
    lemma_typed("usage"@, field);
    lemma_typed("u"@, field);
    if let Reply::Usage(rows) = reply {
        let views = row_views(rows@);
        assert forall|i: int| 0 <= i < rows.len() implies views[i] == (#[trigger] rows@[i])@ by {}
        the_report_is_complete(&c.usage, views);
        assert forall|i: int, j: int| 0 <= i < j < rows.len() implies (#[trigger] rows@[i]).total
            >= (#[trigger] rows@[j]).total by {
            assert(views[i].total >= views[j].total);
        }
        assert forall|i: int| 0 <= i < rows.len() implies c.usage@.contains_key(
            (#[trigger] rows@[i]).ip@,
        ) && c.usage@[rows@[i].ip@].elapsed != 0 && rows@[i].total == c.usage@[rows@[i].ip@].total
            by {
            assert(views[i] == rows@[i]@);
        }
        if c.usage@.contains_key(id) && c.usage@[id].elapsed != 0 {
            let row = crate::usage::row_of(id, c.usage@[id]);
            assert(views.contains(row));
            let i = choose|i: int| 0 <= i < views.len() && views[i] == row;
            assert(rows@[i].ip@ == id);
        }
    }
}

/// `h` is answered with the list of the commands; it changes nothing.
pub proof fn help_is_given(c: Control, field: Seq<char>, reply: Reply)
    requires
        is_field(field),
    ensures
        c.answers("h"@, reply) || c.answers(typed("h"@, field), reply) ==> (
        reply matches Reply::Text(t) && t@ == help_text()),
        control_after(c@, "h"@) == c@,
        control_after(c@, typed("h"@, field)) == c@,
{
    lemma_words();
    lemma_plain_a();
    lemma_typed("h"@, field);
}

/// A command with any other first word changes nothing and is answered with nothing.
pub proof fn other_words_do_nothing(c: Control, cmd: Seq<char>, reply: Reply)
    requires
        ({
            let w = fields(cmd)[0];
            &&& w != "h"@ && w != "usage"@ && w != "u"@
            &&& w != "blacklist-add"@ && w != "ba"@ && w != "blacklist-remove"@ && w != "br"@
            &&& w != "blacklist"@ && w != "b"@ && w != "blocklist"@ && w != "B"@
            &&& w != "blocklist-add"@ && w != "Ba"@ && w != "blocklist-remove"@ && w != "Br"@
            &&& w != "downgrade-threshold"@ && w != "dt"@ && w != "downgrade-start-check"@ && w
                != "t"@
            &&& w != "limit-speed"@ && w != "ls"@ && w != "total-bandwidth"@ && w != "tb"@
            &&& w != "single-bandwidth"@ && w != "sb"@
        }),
    ensures
        control_after(c@, cmd) == c@,
        c.answers(cmd, reply) ==> (reply matches Reply::Text(t) && t@.len() == 0),
{
}

/// White space around a command does not matter.
pub proof fn white_space_does_not_matter(
    c: Control,
    before: Seq<char>,
    cmd: Seq<char>,
    after: Seq<char>,
    reply: Reply,
)
    requires
        forall|i: int| 0 <= i < before.len() ==> is_white_space(#[trigger] before[i]),
        forall|i: int| 0 <= i < after.len() ==> is_white_space(#[trigger] after[i]),
    ensures
        control_after(c@, before + cmd + after) == control_after(c@, cmd),
        c.answers(before + cmd + after, reply) <==> c.answers(cmd, reply),
{
    trim_of_padded(before, cmd, after);
}

/// What follows the field behind another blank does not matter.
pub proof fn further_fields_do_not_matter(
    c: Control,
    word: Seq<char>,
    field: Seq<char>,
    more: Seq<char>,
    reply: Reply,
)
    requires
        word.len() > 0 && !word.contains(' ') && !is_white_space(word[0]),
        is_field(field),
        more.len() > 0 && !is_white_space(more.last()),
    ensures
        control_after(c@, typed(typed(word, field), more)) == control_after(c@, typed(word, field)),
        c.answers(typed(typed(word, field), more), reply) <==> c.answers(
            typed(word, field),
            reply,
        ),
{
    reveal_strlit(" ");
    let short = typed(word, field);
    let long = typed(short, more);
    assert(short =~= word.push(' ') + field);
    assert(long =~= short.push(' ') + more);
    command_is_read(word, field);
    assert(long[0] == word[0]);
    assert(trim_start(long) == long);
    assert(long.last() == more.last());
    assert(trim(long) == long);
    assert(short[0] == word[0]);
    assert(trim_start(short) == short);
    assert(short.last() == field.last());
    assert(trim(short) == short);
    split_of_sum(short, more, ' ');
    assert(split_on(short, ' ') == seq![word, field]);
    assert(fields(long)[0] == word && fields(long)[1] == field);
}

/// Whether two words do the same and are answered the same, with this field and without one.
pub open spec fn mean_the_same(
    one: Seq<char>,
    other: Seq<char>,
    c: Control,
    field: Seq<char>,
    reply: Reply,
) -> bool {
    &&& control_after(c@, typed(one, field)) == control_after(c@, typed(other, field))
    &&& control_after(c@, one) == control_after(c@, other)
    &&& c.answers(typed(one, field), reply) <==> c.answers(typed(other, field), reply)
    &&& c.answers(one, reply) <==> c.answers(other, reply)
}

/// The long word and the short word of each command mean the same.
pub proof fn short_words_mean_the_same(c: Control, field: Seq<char>, reply: Reply)
    requires
        is_field(field),
    ensures
        mean_the_same("blacklist-add"@, "ba"@, c, field, reply),
        mean_the_same("blacklist-remove"@, "br"@, c, field, reply),
        mean_the_same("blacklist"@, "b"@, c, field, reply),
        mean_the_same("blocklist-add"@, "Ba"@, c, field, reply),
        mean_the_same("blocklist-remove"@, "Br"@, c, field, reply),
        mean_the_same("blocklist"@, "B"@, c, field, reply),
        mean_the_same("downgrade-threshold"@, "dt"@, c, field, reply),
        mean_the_same("downgrade-start-check"@, "t"@, c, field, reply),
        mean_the_same("limit-speed"@, "ls"@, c, field, reply),
        mean_the_same("total-bandwidth"@, "tb"@, c, field, reply),
        mean_the_same("single-bandwidth"@, "sb"@, c, field, reply),
        mean_the_same("usage"@, "u"@, c, field, reply),
{
    lemma_words();
    lemma_plain_a();
    lemma_plain_b();
    lemma_plain_c();
    lemma_typed("blacklist-add"@, field);
    lemma_typed("ba"@, field);
    lemma_typed("blacklist-remove"@, field);
    lemma_typed("br"@, field);
    lemma_typed("blacklist"@, field);
    lemma_typed("b"@, field);
    lemma_typed("blocklist-add"@, field);
    lemma_typed("Ba"@, field);
    lemma_typed("blocklist-remove"@, field);
    lemma_typed("Br"@, field);
    lemma_typed("blocklist"@, field);
    lemma_typed("B"@, field);
    lemma_typed("downgrade-threshold"@, field);
    lemma_typed("dt"@, field);
    lemma_typed("downgrade-start-check"@, field);
    lemma_typed("t"@, field);
    lemma_typed("limit-speed"@, field);
    lemma_typed("ls"@, field);
    lemma_typed("total-bandwidth"@, field);
    lemma_typed("tb"@, field);
    lemma_typed("single-bandwidth"@, field);
    lemma_typed("sb"@, field);
    lemma_typed("usage"@, field);
    lemma_typed("u"@, field);
}

/// The fields of a command that has no white space around it stand between its blanks; the first
/// is the word, and the second, also an empty one, is the field.
pub proof fn fields_stand_between_blanks(cmd: Seq<char>)
    requires
        cmd.len() > 0,
        !is_white_space(cmd[0]),
        !is_white_space(cmd.last()),
    ensures
        fields(cmd) == split_on(cmd, ' '),
        verb(cmd) == verb_of(split_on(cmd, ' ')[0]),
        split_on(cmd, ' ').len() > 1 ==> argument(cmd) == Some(split_on(cmd, ' ')[1]),
        split_on(cmd, ' ').len() == 1 ==> argument(cmd) is None,
{
    assert(trim_start(cmd) == cmd);
    assert(trim(cmd) == cmd);
}

} // verus!
