//! The editor of rules: a draft, its check, and what becomes of it when it is saved, deleted or
//! tested.

use crate::config::{
    copy_texts, rule_views, texts, ActionDefinitionView, AppConfig, MatchMode, MatchTarget, Rule,
    RuleView,
};
use crate::foreign::{
    lowercase, opt_view, parse_url, to_lowercase, url_error, url_host, url_path, url_query,
    url_text, UrlParts,
};
use crate::http::or_empty;
use crate::response::{is_prefix, is_suffix};
use crate::rules::{
    candidates, finds, header_views, is_part, law_broken_pattern_is_reported,
    law_one_text_is_compared_in_the_mode_of_the_rule, pattern_error,
    rule_error_text, rule_verdict, verdict_view, FactsView, RequestFacts, RuleError, RuleErrorView,
};
use crate::text::{chars_of, decimal_text, digits, same_text, text_of, trim, trimmed};
use vstd::prelude::*;

verus! {

/// The draft of a rule.
#[derive(Debug)]
pub struct RuleEditor {
    /// The position of the rule that is edited; none for a new one.
    pub selected: Option<usize>,
    /// The name, as it was put in.
    pub id: String,
    /// The pattern, as it was put in.
    pub pattern: String,
    pub target: MatchTarget,
    pub mode: MatchMode,
    pub enabled: bool,
    pub actions: Vec<String>,
    /// What the editor says.
    pub result: String,
}

/// `RuleEditor` as a value.
#[verifier::ext_equal]
pub struct EditorView {
    pub selected: Option<usize>,
    pub id: Seq<char>,
    pub pattern: Seq<char>,
    pub target: MatchTarget,
    pub mode: MatchMode,
    pub enabled: bool,
    pub actions: Seq<Seq<char>>,
    pub result: Seq<char>,
}

impl View for RuleEditor {
    type V = EditorView;

    open spec fn view(&self) -> EditorView {
        EditorView {
            selected: self.selected,
            id: self.id@,
            pattern: self.pattern@,
            target: self.target,
            mode: self.mode,
            enabled: self.enabled,
            actions: texts(self.actions@),
            result: self.result@,
        }
    }
}

/// An editor that holds nothing.
pub open spec fn blank(result: Seq<char>) -> EditorView {
    EditorView {
        selected: None,
        id: Seq::empty(),
        pattern: Seq::empty(),
        target: MatchTarget::Host,
        mode: MatchMode::Contains,
        enabled: true,
        actions: Seq::empty(),
        result,
    }
}

/// The draft of a rule that is there.
pub open spec fn draft_of(rule: RuleView, index: usize) -> EditorView {
    EditorView {
        selected: Some(index),
        id: rule.id,
        pattern: rule.pattern,
        target: rule.target,
        mode: rule.mode,
        enabled: rule.enabled,
        actions: rule.actions,
        result: "规则已载入，可编辑、测试并保存"@,
    }
}

/// The id of the first action that is switched on.
pub open spec fn first_enabled(actions: Seq<ActionDefinitionView>) -> Seq<Seq<char>>
    decreases actions.len(),
{
    if actions.len() == 0 {
        Seq::empty()
    } else if actions[0].enabled {
        seq![actions[0].id]
    } else {
        first_enabled(actions.drop_first())
    }
}

/// The draft of a new rule.
pub open spec fn new_draft(actions: Seq<ActionDefinitionView>, rules: nat) -> EditorView {
    EditorView {
        id: "rule-"@ + digits(rules + 1),
        actions: first_enabled(actions),
        ..blank("正在创建新规则"@)
    }
}

/// The ids without one.
pub open spec fn without(ids: Seq<Seq<char>>, id: Seq<char>) -> Seq<Seq<char>>
    decreases ids.len(),
{
    if ids.len() == 0 {
        Seq::empty()
    } else {
        let before = without(ids.drop_last(), id);
        if ids.last() == id {
            before
        } else {
            before.push(ids.last())
        }
    }
}

/// The ids with one more at the end, or without it where it is among them.
pub open spec fn toggled(ids: Seq<Seq<char>>, id: Seq<char>) -> Seq<Seq<char>> {
    if ids.contains(id) {
        without(ids, id)
    } else {
        ids.push(id)
    }
}

/// Why a draft is no rule.
#[derive(Debug)]
pub enum DraftError {
    EmptyId,
    EmptyPattern,
    Rule(RuleError),
}

/// `DraftError` as a value.
#[verifier::ext_equal]
pub enum DraftErrorView {
    EmptyId,
    EmptyPattern,
    Rule(RuleErrorView),
}

impl View for DraftError {
    type V = DraftErrorView;

    open spec fn view(&self) -> DraftErrorView {
        match self {
            DraftError::EmptyId => DraftErrorView::EmptyId,
            DraftError::EmptyPattern => DraftErrorView::EmptyPattern,
            DraftError::Rule(error) => DraftErrorView::Rule(error@),
        }
    }
}

/// The text of an error of a draft.
pub open spec fn draft_error_text(error: DraftErrorView) -> Seq<char> {
    match error {
        DraftErrorView::EmptyId => "规则名称不能为空"@,
        DraftErrorView::EmptyPattern => "匹配内容不能为空"@,
        DraftErrorView::Rule(e) => rule_error_text(e),
    }
}

impl DraftError {
    /// The error in words.
    pub fn message(&self) -> (r: String)
        ensures
            r@ == draft_error_text(self@),
    {
        match self {
            DraftError::EmptyId => "规则名称不能为空".to_owned(),
            DraftError::EmptyPattern => "匹配内容不能为空".to_owned(),
            DraftError::Rule(error) => error.message(),
        }
    }
}

/// The rule that a draft describes.
pub open spec fn described_rule(editor: EditorView) -> RuleView {
    RuleView {
        id: trim(editor.id),
        enabled: editor.enabled,
        target: editor.target,
        mode: editor.mode,
        pattern: trim(editor.pattern),
        methods: Seq::empty(),
        header_name: None,
        actions: editor.actions,
    }
}

/// The request that a rule is tried on before it is accepted.
pub open spec fn trial_request() -> FactsView {
    FactsView {
        method: "GET"@,
        host: "validation.invalid"@,
        url: "http://validation.invalid/"@,
        path: "/"@,
        headers: Seq::empty(),
    }
}

/// Whether this may be the rule of a draft, or why there is none: name and pattern are needed, and
/// the rule has to be applicable to a request.
pub open spec fn may_draft(editor: EditorView, r: Result<RuleView, DraftErrorView>) -> bool {
    let rule = described_rule(editor);
    if rule.id.len() == 0 {
        r == Err::<RuleView, DraftErrorView>(DraftErrorView::EmptyId)
    } else if rule.pattern.len() == 0 {
        r == Err::<RuleView, DraftErrorView>(DraftErrorView::EmptyPattern)
    } else {
        match r {
            Ok(accepted) => accepted == rule && exists|matched: bool| #[trigger]
                finds(rule, trial_request(), Ok::<bool, RuleErrorView>(matched)),
            Err(DraftErrorView::Rule(error)) => finds(
                rule,
                trial_request(),
                Err::<bool, RuleErrorView>(error),
            ),
            Err(_) => false,
        }
    }
}

/// The rule of a draft, or why there is none, as a value.
pub open spec fn draft_result(r: Result<Rule, DraftError>) -> Result<RuleView, DraftErrorView> {
    match r {
        Ok(rule) => Ok(rule@),
        Err(error) => Err(error@),
    }
}

fn trial_facts() -> (r: RequestFacts)
    ensures
        r@ == trial_request(),
{
    let headers: Vec<(String, String)> = Vec::new();
    assert(header_views(headers@) =~= Seq::<(Seq<char>, Seq<char>)>::empty());
    RequestFacts {
        method: "GET".to_owned(),
        host: "validation.invalid".to_owned(),
        url: "http://validation.invalid/".to_owned(),
        path: "/".to_owned(),
        headers,
    }
}

impl RuleEditor {
    /// An editor that holds nothing.
    pub fn new() -> (r: RuleEditor)
        ensures
            r@ == blank("输入 URL 后可在保存前验证规则"@),
    {
        let actions: Vec<String> = Vec::new();
        assert(texts(actions@) =~= Seq::<Seq<char>>::empty());
        RuleEditor {
            selected: None,
            id: String::new(),
            pattern: String::new(),
            target: MatchTarget::Host,
            mode: MatchMode::Contains,
            enabled: true,
            actions,
            result: "输入 URL 后可在保存前验证规则".to_owned(),
        }
    }

    /// Edits the rule at a position, if there is one.
    pub fn select_rule(&mut self, rules: &[Rule], index: usize)
        ensures
            final(self)@ == (if index < rules@.len() {
                draft_of(rules@[index as int]@, index)
            } else {
                old(self)@
            }),
    {
        if index < rules.len() {
            let rule = &rules[index];
            self.selected = Some(index);
            self.target = rule.target;
            self.mode = rule.mode;
            self.enabled = rule.enabled;
            self.actions = copy_texts(rule.actions.as_slice());
            self.id = rule.id.clone();
            self.pattern = rule.pattern.clone();
            self.result = "规则已载入，可编辑、测试并保存".to_owned();
        }
    }

    /// Edits a new rule.
    pub fn new_rule(&mut self, config: &AppConfig)
        requires
            config@.blacklist.len() < usize::MAX,
        ensures
            final(self)@ == new_draft(config@.actions, config@.blacklist.len()),
    {
        let ghost all = config@.actions;
        let mut actions: Vec<String> = Vec::new();
        assert(texts(actions@) =~= Seq::<Seq<char>>::empty());
        let mut i: usize = 0;
        assert(all.skip(0) =~= all);
        while i < config.actions.len() && actions.len() == 0
            invariant
                i <= config.actions@.len(),
                all == crate::config::action_views(config.actions@),
                actions@.len() == 0 ==> first_enabled(all) == first_enabled(all.skip(i as int)),
                actions@.len() > 0 ==> texts(actions@) == first_enabled(all),
            decreases config.actions@.len() - i,
        {
            assert(all.skip(i as int)[0] == config.actions@[i as int]@);
            assert(all.skip(i as int).drop_first() =~= all.skip(i + 1));
            if config.actions[i].enabled {
                actions.push(config.actions[i].id.clone());
                assert(texts(actions@) =~= seq![config.actions@[i as int].id@]);
            }
            i += 1;
        }
        if actions.len() == 0 {
            assert(texts(actions@) =~= first_enabled(all));
        }
        let mut id = "rule-".to_owned();
        let count: usize = config.blacklist.len();
        id.append(decimal_text(count as u64 + 1).as_str());
        self.selected = None;
        self.target = MatchTarget::Host;
        self.mode = MatchMode::Contains;
        self.enabled = true;
        self.actions = actions;
        self.id = id;
        self.pattern = String::new();
        self.result = "正在创建新规则".to_owned();
    }

    /// Binds an action to the rule, or takes it away where it is bound.
    pub fn toggle_draft_action(&mut self, action_id: String)
        ensures
            final(self)@ == (EditorView {
                actions: toggled(old(self)@.actions, action_id@),
                ..old(self)@
            }),
    {
        let ghost all = self@.actions;
        let ghost id = action_id@;
        let mut kept: Vec<String> = Vec::new();
        let mut found = false;
        let mut i: usize = 0;
        assert(all.take(0) =~= Seq::<Seq<char>>::empty());
        assert(texts(kept@) =~= Seq::<Seq<char>>::empty());
        while i < self.actions.len()
            invariant
                i <= self.actions@.len(),
                self@ == old(self)@,
                all == texts(self.actions@),
                id == action_id@,
                texts(kept@) == without(all.take(i as int), id),
                found == all.take(i as int).contains(id),
            decreases self.actions@.len() - i,
        {
            assert(all.take(i + 1).drop_last() =~= all.take(i as int));
            assert(all.take(i + 1).last() == self.actions@[i as int]@);
            assert(all.take(i + 1) =~= all.take(i as int).push(all[i as int]));
            if same_text(self.actions[i].as_str(), action_id.as_str()) {
                found = true;
                assert(all.take(i + 1)[i as int] == id);
            } else {
                let ghost before = kept@;
                kept.push(self.actions[i].clone());
                assert(texts(kept@) =~= texts(before).push(self.actions@[i as int]@));
                let ghost a = all.take(i as int);
                let ghost b = all.take(i + 1);
                assert(b.contains(id) == a.contains(id)) by {
                    if b.contains(id) {
                        let k = choose|k: int| 0 <= k < b.len() && b[k] == id;
                        assert(a[k] == id);
                    }
                    if a.contains(id) {
                        let k = choose|k: int| 0 <= k < a.len() && a[k] == id;
                        assert(b[k] == id);
                    }
                }
            }
            i += 1;
        }
        assert(all.take(i as int) =~= all);
        if found {
            self.actions = kept;
        } else {
            self.actions.push(action_id);
            assert(texts(self.actions@) =~= all.push(id));
        }
    }

    /// The rule of the draft, or why there is none.
    pub fn draft_rule(&self) -> (r: Result<Rule, DraftError>)
        ensures
            may_draft(self@, draft_result(r)),
    {
        let id = text_of(trimmed(chars_of(self.id.as_str()).as_slice()));
        let pattern = text_of(trimmed(chars_of(self.pattern.as_str()).as_slice()));
        proof {
            reveal_strlit("");
        }
        assert(id@.len() == 0 ==> id@ =~= ""@);
        assert(pattern@.len() == 0 ==> pattern@ =~= ""@);
        if same_text(id.as_str(), "") {
            return Err(DraftError::EmptyId);
        }
        if same_text(pattern.as_str(), "") {
            return Err(DraftError::EmptyPattern);
        }
        let methods: Vec<String> = Vec::new();
        assert(texts(methods@) =~= Seq::<Seq<char>>::empty());
        let rule = Rule {
            id,
            enabled: self.enabled,
            target: self.target,
            mode: self.mode,
            pattern,
            methods,
            header_name: None,
            actions: copy_texts(self.actions.as_slice()),
        };
        assert(rule@ == described_rule(self@));
        match crate::rules::matches(&rule, &trial_facts()) {
            Ok(matched) => {
                assert(finds(rule@, trial_request(), Ok::<bool, RuleErrorView>(matched)));
                Ok(rule)
            },
            Err(error) => Err(DraftError::Rule(error)),
        }
    }
}

// ---------------------------------------------------------------------------
// Saving and deleting
// ---------------------------------------------------------------------------
/// Whether another rule than the edited one has a name.
pub open spec fn name_taken(rules: Seq<RuleView>, selected: Option<usize>, id: Seq<char>) -> bool {
    exists|i: int|
        0 <= i < rules.len() && (selected is None || i != selected->0) && (#[trigger] rules[i]).id
            == id
}

/// The rules with a draft in place of the edited one, or as a new one at the end.
pub open spec fn with_rule(
    rules: Seq<RuleView>,
    selected: Option<usize>,
    rule: RuleView,
) -> Seq<RuleView> {
    match selected {
        Some(i) => rules.update(i as int, rule),
        None => rules.push(rule),
    }
}

/// Where a draft stands among the rules.
pub open spec fn rule_position(rules: Seq<RuleView>, selected: Option<usize>) -> int {
    match selected {
        Some(i) => i as int,
        None => rules.len() as int,
    }
}

/// The editor and the rules after a draft was to be saved, given the rule of the draft; and where the
/// rule stands, if the rules have changed.
pub open spec fn after_save(
    editor: EditorView,
    rules: Seq<RuleView>,
    draft: Result<RuleView, DraftErrorView>,
) -> (EditorView, Seq<RuleView>, Option<int>) {
    match draft {
        Err(error) => (
            EditorView { result: "无法保存："@ + draft_error_text(error), ..editor },
            rules,
            None,
        ),
        Ok(rule) => if name_taken(rules, editor.selected, rule.id) {
            (
                EditorView { result: "无法保存：规则名称必须唯一"@, ..editor },
                rules,
                None,
            )
        } else {
            (
                editor,
                with_rule(rules, editor.selected, rule),
                Some(rule_position(rules, editor.selected)),
            )
        },
    }
}

/// Whether the edited rule is among the rules.
pub open spec fn selects_a_rule(selected: Option<usize>, rules: Seq<RuleView>) -> bool {
    selected matches Some(i) ==> i < rules.len()
}

/// Whether a draft has its place among the rules: the edited rule is there, unless the draft cannot
/// be saved anyhow.
pub open spec fn has_place(editor: EditorView, rules: Seq<RuleView>) -> bool {
    selects_a_rule(editor.selected, rules) || forall|draft: Result<RuleView, DraftErrorView>|
        #[trigger] may_draft(editor, draft) ==> after_save(editor, rules, draft).2 is None
}

/// What the editor says when rules have been stored and connections were cut for it.
pub open spec fn stored_text(done: Seq<char>, connections: nat) -> Seq<char> {
    if connections == 0 {
        done
    } else {
        done + "；已刷新 "@ + digits(connections) + " 条现有连接"@
    }
}

fn stored_message(done: &str, connections: usize) -> (r: String)
    ensures
        r@ == stored_text(done@, connections as nat),
{
    let mut out = done.to_owned();
    if connections > 0 {
        out.append("；已刷新 ");
        out.append(decimal_text(connections as u64).as_str());
        out.append(" 条现有连接");
    }
    out
}

/// How storing the rules went: how many connections were cut for it, or the error.
pub open spec fn stored(r: Result<usize, String>) -> Result<nat, Seq<char>> {
    match r {
        Ok(n) => Ok(n as nat),
        Err(error) => Err(error@),
    }
}

impl RuleEditor {
    /// Whether another rule than the edited one has a name.
    fn is_taken(&self, rules: &[Rule], id: &str) -> (r: bool)
        ensures
            r == name_taken(rule_views(rules@), self.selected, id@),
    {
        let ghost all = rule_views(rules@);
        let mut i: usize = 0;
        while i < rules.len()
            invariant
                i <= rules.len(),
                all == rule_views(rules@),
                forall|j: int|
                    0 <= j < i && (self.selected is None || j != self.selected->0) ==> (
                    #[trigger] all[j]).id != id@,
            decreases rules.len() - i,
        {
            assert(all[i as int] == rules@[i as int]@);
            let edited = match self.selected {
                Some(k) => k == i,
                None => false,
            };
            if !edited && same_text(rules[i].id.as_str(), id) {
                return true;
            }
            i += 1;
        }
        false
    }

    /// Puts the rule of the draft among the rules, where there is one and its name is free. Tells
    /// where it stands.
    fn place_rule(&mut self, rules: &mut Vec<Rule>, drafted: Result<Rule, DraftError>) -> (r: Option<
        usize,
    >)
        requires
            selects_a_rule(old(self).selected, rule_views(old(rules)@)) || after_save(
                old(self)@,
                rule_views(old(rules)@),
                draft_result(drafted),
            ).2 is None,
        ensures
            (final(self)@, rule_views(final(rules)@), crate::intercept::opt_int(r)) == after_save(
                old(self)@,
                rule_views(old(rules)@),
                draft_result(drafted),
            ),
    {
        let ghost before = rule_views(rules@);
        match drafted {
            Err(error) => {
                let mut said = "无法保存：".to_owned();
                said.append(error.message().as_str());
                self.result = said;
                None
            },
            Ok(rule) => {
                if self.is_taken(rules.as_slice(), rule.id.as_str()) {
                    self.result = "无法保存：规则名称必须唯一".to_owned();
                    return None;
                }
                let ghost value = rule@;
                match self.selected {
                    Some(i) => {
                        rules.set(i, rule);
                        assert(rule_views(rules@) =~= before.update(i as int, value));
                        Some(i)
                    },
                    None => {
                        let position: usize = rules.len();
                        rules.push(rule);
                        assert(rule_views(rules@) =~= before.push(value));
                        Some(position)
                    },
                }
            },
        }
    }

    /// Puts the draft among the rules, where it is a rule and its name is free. Tells where it
    /// stands; the rules are then to be stored, and `rule_saved` is to be told how that went.
    pub fn save_rule(&mut self, rules: &mut Vec<Rule>) -> (r: Option<usize>)
        requires
            has_place(old(self)@, rule_views(old(rules)@)),
        ensures
            exists|draft: Result<RuleView, DraftErrorView>|
                {
                    &&& #[trigger] may_draft(old(self)@, draft)
                    &&& (
                        final(self)@,
                        rule_views(final(rules)@),
                        crate::intercept::opt_int(r),
                    ) == after_save(old(self)@, rule_views(old(rules)@), draft)
                },
    {
        let drafted = self.draft_rule();
        assert(may_draft(old(self)@, draft_result(drafted)));
        self.place_rule(rules, drafted)
    }

    /// Puts the draft among the rules, as `save_rule` does; `None` where the draft could be saved but
    /// the edited rule is gone.
    pub fn try_save_rule(&mut self, rules: &mut Vec<Rule>) -> (r: Option<Option<usize>>)
        ensures
            exists|draft: Result<RuleView, DraftErrorView>|
                {
                    &&& #[trigger] may_draft(old(self)@, draft)
                    &&& match r {
                        Some(position) => {
                            &&& (
                                final(self)@,
                                rule_views(final(rules)@),
                                crate::intercept::opt_int(position),
                            ) == after_save(old(self)@, rule_views(old(rules)@), draft)
                            &&& position is Some ==> selects_a_rule(
                                old(self).selected,
                                rule_views(old(rules)@),
                            )
                        },
                        None => {
                            &&& *final(self) == *old(self)
                            &&& *final(rules) == *old(rules)
                            &&& !selects_a_rule(old(self).selected, rule_views(old(rules)@))
                            &&& after_save(old(self)@, rule_views(old(rules)@), draft).2 is Some
                        },
                    }
                },
    {
        let there = match self.selected {
            Some(i) => i < rules.len(),
            None => true,
        };
        if there {
            return Some(self.save_rule(rules));
        }
        let drafted = self.draft_rule();
        assert(may_draft(old(self)@, draft_result(drafted)));
        if let Ok(rule) = &drafted {
            if !self.is_taken(rules.as_slice(), rule.id.as_str()) {
                return None;
            }
        }
        Some(self.place_rule(rules, drafted))
    }

    /// The rules with the draft at a position were stored, or not.
    pub fn rule_saved(&mut self, index: usize, result: Result<usize, String>)
        ensures
            final(self)@ == (match stored(result) {
                Ok(n) => EditorView {
                    selected: Some(index),
                    result: stored_text("规则已保存并立即生效"@, n),
                    ..old(self)@
                },
                Err(error) => EditorView { result: "保存失败："@ + error, ..old(self)@ },
            }),
    {
        match result {
            Ok(connections) => {
                self.selected = Some(index);
                self.result = stored_message("规则已保存并立即生效", connections);
            },
            Err(error) => {
                let mut said = "保存失败：".to_owned();
                said.append(error.as_str());
                self.result = said;
            },
        }
    }

    /// Takes the edited rule away. Tells whether the rules are to be stored; then `rule_deleted` is
    /// to be told how that went.
    pub fn delete_rule(&mut self, rules: &mut Vec<Rule>) -> (r: bool)
        ensures
            match old(self)@.selected {
                None => !r && rule_views(final(rules)@) == rule_views(old(rules)@) && final(self)@
                    == (EditorView {
                    result: "新规则尚未保存，无需删除"@,
                    ..old(self)@
                }),
                Some(i) => r && final(self)@ == old(self)@ && rule_views(final(rules)@) == (if i
                    < old(rules)@.len() {
                    rule_views(old(rules)@).remove(i as int)
                } else {
                    rule_views(old(rules)@)
                }),
            },
    {
        match self.selected {
            None => {
                self.result = "新规则尚未保存，无需删除".to_owned();
                false
            },
            Some(i) => {
                if i < rules.len() {
                    let ghost before = rules@;
                    rules.remove(i);
                    assert(rule_views(rules@) =~= rule_views(before).remove(i as int));
                }
                true
            },
        }
    }

    /// The rules without the deleted one were stored, or not.
    pub fn rule_deleted(&mut self, result: Result<usize, String>)
        ensures
            final(self)@ == (match stored(result) {
                Ok(n) => blank(stored_text("规则已删除并立即生效"@, n)),
                Err(error) => EditorView { result: "删除失败："@ + error, ..old(self)@ },
            }),
    {
        match result {
            Ok(connections) => {
                self.selected = None;
                self.target = MatchTarget::Host;
                self.mode = MatchMode::Contains;
                self.enabled = true;
                self.actions = Vec::new();
                self.id = String::new();
                self.pattern = String::new();
                self.result = stored_message("规则已删除并立即生效", connections);
                assert(texts(self.actions@) =~= Seq::<Seq<char>>::empty());
            },
            Err(error) => {
                let mut said = "删除失败：".to_owned();
                said.append(error.as_str());
                self.result = said;
            },
        }
    }
}

// ---------------------------------------------------------------------------
// Testing
// ---------------------------------------------------------------------------
/// What rules can look at in a request for a URL.
pub open spec fn facts_for_url(
    host: Option<Seq<char>>,
    path: Seq<char>,
    query: Option<Seq<char>>,
    text: Seq<char>,
) -> FactsView {
    FactsView {
        method: "GET"@,
        host: lowercase(or_empty(host)),
        url: text,
        path: match query {
            Some(q) => path + "?"@ + q,
            None => path,
        },
        headers: Seq::empty(),
    }
}

/// What rules can look at in a request for a URL.
pub fn url_facts(parts: UrlParts) -> (r: RequestFacts)
    ensures
        r@ == facts_for_url(
            opt_view(parts.host),
            parts.path@,
            opt_view(parts.query),
            parts.text@,
        ),
{
    let headers: Vec<(String, String)> = Vec::new();
    assert(header_views(headers@) =~= Seq::<(Seq<char>, Seq<char>)>::empty());
    let host = match parts.host {
        Some(name) => name,
        None => String::new(),
    };
    let mut path = parts.path;
    if let Some(query) = parts.query {
        path.append("?");
        path.append(query.as_str());
    }
    RequestFacts {
        method: "GET".to_owned(),
        host: to_lowercase(host.as_str()),
        url: parts.text,
        path,
        headers,
    }
}

/// What the editor says of a test, given the verdict of the rule.
pub open spec fn test_text(verdict: Result<bool, RuleErrorView>) -> Seq<char> {
    match verdict {
        Ok(true) => "测试结果：命中，将被拦截"@,
        Ok(false) => "测试结果：未命中，将放行"@,
        Err(error) => "测试失败："@ + rule_error_text(error),
    }
}

/// Whether the editor may say this of a test of a URL.
pub open spec fn may_say(editor: EditorView, url: Seq<char>, said: Seq<char>) -> bool {
    exists|draft: Result<RuleView, DraftErrorView>|
        {
            &&& #[trigger] may_draft(editor, draft)
            &&& match draft {
                Err(error) => said == "规则无效："@ + draft_error_text(error),
                Ok(rule) => if rule.target == MatchTarget::Header {
                    said == "Header 规则需要通过实际请求验证"@
                } else {
                    match url_error(url) {
                        Some(detail) => said == "测试 URL 无效："@ + detail,
                        None => exists|verdict: Result<bool, RuleErrorView>|
                            {
                                &&& #[trigger] finds(
                                    rule,
                                    facts_for_url(
                                        url_host(url),
                                        url_path(url),
                                        url_query(url),
                                        url_text(url),
                                    ),
                                    verdict,
                                )
                                &&& said == test_text(verdict)
                            },
                    }
                },
            }
        }
}

/// What the editor says of a test, given the verdict of the rule.
pub fn test_message(verdict: Result<bool, RuleError>) -> (r: String)
    ensures
        r@ == test_text(verdict_view(verdict)),
{
    match verdict {
        Ok(true) => "测试结果：命中，将被拦截".to_owned(),
        Ok(false) => "测试结果：未命中，将放行".to_owned(),
        Err(error) => {
            let mut out = "测试失败：".to_owned();
            out.append(error.message().as_str());
            out
        },
    }
}

impl RuleEditor {
    /// What is to be said of a test of the draft on a URL.
    fn test_verdict(&self, input: &str) -> (r: String)
        ensures
            may_say(self@, trim(input@), r@),
    {
        let drafted = self.draft_rule();
        let ghost draft = draft_result(drafted);
        assert(may_draft(self@, draft));
        let rule = match drafted {
            Ok(rule) => rule,
            Err(error) => {
                let mut out = "规则无效：".to_owned();
                out.append(error.message().as_str());
                return out;
            },
        };
        if rule.target == MatchTarget::Header {
            return "Header 规则需要通过实际请求验证".to_owned();
        }
        let url = text_of(trimmed(chars_of(input).as_slice()));
        match parse_url(url.as_str()) {
            Err(detail) => {
                let mut out = "测试 URL 无效：".to_owned();
                out.append(detail.as_str());
                out
            },
            Ok(parts) => {
                let verdict = crate::rules::matches(&rule, &url_facts(parts));
                assert(finds(
                    rule@,
                    facts_for_url(url_host(url@), url_path(url@), url_query(url@), url_text(url@)),
                    verdict_view(verdict),
                ));
                test_message(verdict)
            },
        }
    }

    /// Tests the draft on a URL.
    pub fn test_rule(&mut self, input: &str)
        ensures
            final(self)@ == (EditorView { result: final(self)@.result, ..old(self)@ }),
            may_say(old(self)@, trim(input@), final(self)@.result),
    {
        self.result = self.test_verdict(input);
    }
}

// ---------------------------------------------------------------------------
// Laws
// ---------------------------------------------------------------------------
/// Whether no two rules have the same name.
pub open spec fn unique_names(rules: Seq<RuleView>) -> bool {
    forall|i: int, j: int|
        0 <= i < j < rules.len() ==> (#[trigger] rules[i]).id != (#[trigger] rules[j]).id
}

/// Names stay unique: saving a draft never gives two rules the same name.
pub proof fn law_names_stay_unique(
    editor: EditorView,
    rules: Seq<RuleView>,
    draft: Result<RuleView, DraftErrorView>,
)
    requires
        unique_names(rules),
        editor.selected is Some ==> editor.selected->0 < rules.len(),
    ensures
        unique_names(after_save(editor, rules, draft).1),
{
    if let Ok(rule) = draft {
        if !name_taken(rules, editor.selected, rule.id) {
            let after = after_save(editor, rules, draft).1;
            assert forall|i: int, j: int| 0 <= i < j < after.len() implies (#[trigger] after[i]).id
                != (#[trigger] after[j]).id by {
                match editor.selected {
                    Some(k) => {
                        if i == k {
                            assert(after[j] == rules[j]);
                            assert(rules[j].id != rule.id);
                        } else if j == k {
                            assert(after[i] == rules[i]);
                            assert(rules[i].id != rule.id);
                        } else {
                            assert(rules[i].id != rules[j].id);
                        }
                    },
                    None => {
                        if j == rules.len() {
                            assert(after[i] == rules[i]);
                            assert(rules[i].id != rule.id);
                        } else {
                            assert(rules[i].id != rules[j].id);
                        }
                    },
                }
            }
        }
    }
}

/// A draft with a name and a pattern that can be applied, however a backslash in it is read, is
/// accepted, with all the actions that are bound.
pub proof fn law_sound_draft_is_accepted(
    editor: EditorView,
    r: Result<RuleView, DraftErrorView>,
)
    requires
        may_draft(editor, r),
        trim(editor.id).len() > 0,
        trim(editor.pattern).len() > 0,
        forall|separates: bool| #[trigger]
            pattern_error(described_rule(editor), separates) is None,
    ensures
        r matches Ok(rule) && rule == described_rule(editor) && rule.actions == editor.actions,
{
    let rule = described_rule(editor);
    if let Err(DraftErrorView::Rule(error)) = r {
        let verdict = Err::<bool, RuleErrorView>(error);
        assert(finds(rule, trial_request(), verdict));
        let readings = choose|readings: Seq<bool>|
            readings.len() == candidates(rule, trial_request()).len() && verdict
                == #[trigger] rule_verdict(rule, trial_request(), readings);
        law_broken_pattern_is_reported(rule, trial_request(), readings, true);
    }
}

/// A rule that is loaded into the editor and saved unchanged stays as it is, but for surrounding
/// white space and for the methods and the header name, which the editor does not show.
pub proof fn law_saving_a_loaded_rule_keeps_it(rule: RuleView, index: usize)
    requires
        trim(rule.id) == rule.id,
        trim(rule.pattern) == rule.pattern,
    ensures
        described_rule(draft_of(rule, index)) == (RuleView {
            methods: Seq::empty(),
            header_name: None,
            ..rule
        }),
{
}

/// Binding an action twice leaves the bound actions as they were, where none is bound twice.
pub proof fn law_toggling_twice_changes_nothing(ids: Seq<Seq<char>>, id: Seq<char>)
    requires
        !ids.contains(id),
    ensures
        toggled(toggled(ids, id), id) == ids,
{
    let more = ids.push(id);
    assert(more[ids.len() as int] == id);
    assert(more.drop_last() =~= ids);
    lemma_without_absent(ids, id);
}

proof fn lemma_without_absent(ids: Seq<Seq<char>>, id: Seq<char>)
    requires
        !ids.contains(id),
    ensures
        without(ids, id) == ids,
    decreases ids.len(),
{
    if ids.len() > 0 {
        let front = ids.drop_last();
        assert(!front.contains(id)) by {
            if front.contains(id) {
                let k = choose|k: int| 0 <= k < front.len() && front[k] == id;
                assert(ids[k] == id);
            }
        }
        lemma_without_absent(front, id);
        assert(ids[ids.len() - 1] != id);
        assert(front.push(ids.last()) =~= ids);
    }
}

proof fn lemma_without(ids: Seq<Seq<char>>, id: Seq<char>, keep: spec_fn(Seq<char>) -> bool)
    requires
        forall|other: Seq<char>| #[trigger] keep(other) <==> other != id,
    ensures
        without(ids, id) == ids.filter(keep),
    decreases ids.len(),
{
    reveal(Seq::filter);
    if ids.len() > 0 {
        lemma_without(ids.drop_last(), id, keep);
    }
}

/// Toggling an action takes out what was chosen and adds at the end what was not; the others stay, in
/// their order, and nothing else of the draft changes.
pub proof fn law_toggling_changes_one_action(editor: &mut RuleEditor, id: String)
    requires
        call_ensures(RuleEditor::toggle_draft_action, (editor, id), ()),
    ensures
        old(editor)@.actions.contains(id@) ==> final(editor)@.actions
            == old(editor)@.actions.filter(|other: Seq<char>| other != id@),
        !old(editor)@.actions.contains(id@) ==> final(editor)@.actions
            == old(editor)@.actions.push(id@),
        final(editor).selected == old(editor).selected,
        final(editor).id@ == old(editor).id@,
        final(editor).pattern@ == old(editor).pattern@,
        final(editor).target == old(editor).target,
        final(editor).mode == old(editor).mode,
        final(editor).enabled == old(editor).enabled,
        final(editor).result@ == old(editor).result@,
{
    lemma_without(old(editor)@.actions, id@, |other: Seq<char>| other != id@);
}

proof fn lemma_first_enabled(actions: Seq<ActionDefinitionView>, i: int)
    requires
        0 <= i <= actions.len(),
        forall|j: int| 0 <= j < i ==> !(#[trigger] actions[j]).enabled,
        i < actions.len() ==> actions[i].enabled,
    ensures
        i < actions.len() ==> first_enabled(actions) == seq![actions[i].id],
        i == actions.len() ==> first_enabled(actions) == Seq::<Seq<char>>::empty(),
    decreases actions.len(),
{
    if actions.len() > 0 && i > 0 {
        assert(!actions[0].enabled);
        let rest = actions.drop_first();
        assert forall|j: int| 0 <= j < i - 1 implies !(#[trigger] rest[j]).enabled by {
            assert(rest[j] == actions[j + 1]);
        }
        lemma_first_enabled(rest, i - 1);
        if i < actions.len() {
            assert(rest[i - 1] == actions[i]);
        }
    }
}

/// A new draft is switched on, looks for a part of the host, takes the first action that is switched
/// on, and has the number of the rule that it would be in its name.
pub proof fn law_new_draft_is_ready(editor: &mut RuleEditor, config: &AppConfig, i: int)
    requires
        call_ensures(RuleEditor::new_rule, (editor, config), ()),
        0 <= i <= config@.actions.len(),
        forall|j: int| 0 <= j < i ==> !(#[trigger] config@.actions[j]).enabled,
        i < config@.actions.len() ==> config@.actions[i].enabled,
    ensures
        final(editor).selected is None,
        final(editor).id@ == "rule-"@ + digits(config@.blacklist.len() + 1),
        final(editor).pattern@.len() == 0,
        final(editor).target == MatchTarget::Host,
        final(editor).mode == MatchMode::Contains,
        final(editor).enabled,
        i < config@.actions.len() ==> final(editor)@.actions == seq![config@.actions[i].id],
        i == config@.actions.len() ==> final(editor)@.actions.len() == 0,
{
    lemma_first_enabled(config@.actions, i);
}

/// Choosing a rule loads it as it is; a position without a rule changes nothing.
pub proof fn law_chosen_rule_is_loaded(editor: &mut RuleEditor, rules: &[Rule], index: usize)
    requires
        call_ensures(RuleEditor::select_rule, (editor, rules, index), ()),
    ensures
        index >= rules@.len() ==> final(editor)@ == old(editor)@,
        index < rules@.len() ==> {
            &&& final(editor).selected == Some(index)
            &&& final(editor).id@ == rules@[index as int].id@
            &&& final(editor).pattern@ == rules@[index as int].pattern@
            &&& final(editor).target == rules@[index as int].target
            &&& final(editor).mode == rules@[index as int].mode
            &&& final(editor).enabled == rules@[index as int].enabled
            &&& final(editor)@.actions == texts(rules@[index as int].actions@)
        },
{
}

/// A draft needs a name and a pattern that are more than white space; it becomes the rule with what
/// was put in, without white space around it, for every method and header. A pattern that is only
/// compared is never refused.
pub proof fn law_draft_is_what_was_put_in(editor: &RuleEditor, r: Result<Rule, DraftError>)
    requires
        call_ensures(RuleEditor::draft_rule, (editor,), r),
    ensures
        r is Err && r->Err_0 is EmptyId <==> trim(editor.id@).len() == 0,
        r is Err && r->Err_0 is EmptyPattern <==> trim(editor.id@).len() > 0 && trim(
            editor.pattern@,
        ).len() == 0,
        trim(editor.id@).len() > 0 && trim(editor.pattern@).len() > 0 && (editor.mode
            == MatchMode::Exact || editor.mode == MatchMode::Contains) ==> r is Ok,
        r matches Ok(rule) ==> {
            &&& rule.id@ == trim(editor.id@)
            &&& rule.pattern@ == trim(editor.pattern@)
            &&& rule.enabled == editor.enabled
            &&& rule.target == editor.target
            &&& rule.mode == editor.mode
            &&& rule.methods@.len() == 0
            &&& rule.header_name is None
            &&& texts(rule.actions@) == texts(editor.actions@)
        },
{
    let view = draft_result(r);
    assert(may_draft(editor@, view));
    if trim(editor.id@).len() > 0 && trim(editor.pattern@).len() > 0 && (editor.mode
        == MatchMode::Exact || editor.mode == MatchMode::Contains) {
        law_sound_draft_is_accepted(editor@, view);
    }
    if r is Ok {
        let rule = r->Ok_0;
        assert(view == Ok::<RuleView, DraftErrorView>(rule@));
        assert(rule@ == described_rule(editor@));
        assert(rule@.methods.len() == rule.methods@.len());
    }
}

/// A draft is placed where it belongs: over the rule that it was loaded from or behind the others. It
/// is refused, and no rule changes, where it is not sound or where another rule has its name.
pub proof fn law_draft_is_placed_where_it_belongs(
    editor: EditorView,
    rules: Seq<RuleView>,
    rule: RuleView,
    error: DraftErrorView,
    i: int,
)
    requires
        editor.selected is Some ==> editor.selected->0 < rules.len(),
        0 <= i < rules.len(),
    ensures
        ({
            let (told, after, place) = after_save(editor, rules, Ok(rule));
            let taken = exists|k: int|
                0 <= k < rules.len() && editor.selected != Some(k as usize) && (
                #[trigger] rules[k]).id == rule.id;
            &&& rules.len() <= usize::MAX ==> (place is None <==> taken)
            &&& place is None ==> after == rules && is_prefix("无法保存："@, told.result)
            &&& place matches Some(p) ==> {
                &&& told == editor
                &&& editor.selected is None ==> p == rules.len() && after.len() == rules.len() + 1
                &&& editor.selected is Some ==> p == editor.selected->0 && after.len()
                    == rules.len()
                &&& after[p] == rule
                &&& i != p ==> after[i] == rules[i]
            }
        }),
        after_save(editor, rules, Err(error)).1 == rules,
        after_save(editor, rules, Err(error)).2 is None,
        is_prefix("无法保存："@, after_save(editor, rules, Err(error)).0.result),
{
    let (told, after, place) = after_save(editor, rules, Ok(rule));
    reveal_strlit("无法保存：");
    reveal_strlit("无法保存：规则名称必须唯一");
    let text = "无法保存："@ + draft_error_text(error);
    assert(text.subrange(0, "无法保存："@.len() as int) =~= "无法保存："@);
    assert("无法保存：规则名称必须唯一"@.subrange(0, "无法保存："@.len() as int) =~= "无法保存："@);
    if rules.len() <= usize::MAX {
        if name_taken(rules, editor.selected, rule.id) {
            let k = choose|k: int|
                0 <= k < rules.len() && (editor.selected is None || k != editor.selected->0)
                    && (#[trigger] rules[k]).id == rule.id;
            assert(editor.selected != Some(k as usize) && rules[k].id == rule.id);
        }
    }
}

/// Saving changes at most one rule: the one that was put in stands where it was loaded from, or
/// behind the others; where it was not saved, no rule changed.
pub proof fn law_saving_places_the_draft(
    editor: &mut RuleEditor,
    rules: &mut Vec<Rule>,
    r: Option<Option<usize>>,
    i: int,
)
    requires
        call_ensures(RuleEditor::try_save_rule, (editor, rules), r),
        0 <= i < old(rules)@.len(),
    ensures
        (r matches Some(Some(p))) ==> {
            let p = r->0->0;
            &&& p < final(rules)@.len()
            &&& final(rules)@[p as int].id@ == trim(old(editor).id@)
            &&& final(rules)@[p as int].pattern@ == trim(old(editor).pattern@)
            &&& final(rules)@[p as int].target == old(editor).target
            &&& final(rules)@[p as int].mode == old(editor).mode
            &&& final(rules)@[p as int].enabled == old(editor).enabled
            &&& texts(final(rules)@[p as int].actions@) == texts(old(editor).actions@)
            &&& old(editor).selected == Some(p) ==> final(rules)@.len() == old(rules)@.len()
            &&& old(editor).selected is None ==> p == old(rules)@.len() && final(rules)@.len()
                == old(rules)@.len() + 1
            &&& i != p ==> final(rules)@[i]@ == old(rules)@[i]@
        },
        r is None || r->0 is None ==> final(rules)@.len() == old(rules)@.len() && final(rules)@[i]@
            == old(rules)@[i]@,
        trim(old(editor).id@).len() == 0 || trim(old(editor).pattern@).len() == 0 ==> r
            == Some(None::<usize>),
{
    let before = rule_views(old(rules)@);
    let draft = choose|draft: Result<RuleView, DraftErrorView>|
        {
            &&& #[trigger] may_draft(old(editor)@, draft)
            &&& match r {
                Some(position) => {
                    &&& (
                        final(editor)@,
                        rule_views(final(rules)@),
                        crate::intercept::opt_int(position),
                    ) == after_save(old(editor)@, before, draft)
                    &&& position is Some ==> selects_a_rule(old(editor).selected, before)
                },
                None => {
                    &&& *final(editor) == *old(editor)
                    &&& *final(rules) == *old(rules)
                    &&& !selects_a_rule(old(editor).selected, before)
                    &&& after_save(old(editor)@, before, draft).2 is Some
                },
            }
        };
    let after = rule_views(final(rules)@);
    assert(after.len() == final(rules)@.len());
    assert(before.len() == old(rules)@.len());
    assert(before[i] == old(rules)@[i]@);
    if r is Some && r->0 is Some {
        let p = r->0->0;
        assert(after_save(old(editor)@, before, draft).2 == Some(p as int));
        assert(draft is Ok);
        assert(draft->Ok_0 == described_rule(old(editor)@));
        assert(after == with_rule(before, old(editor).selected, draft->Ok_0));
        assert(final(rules)@[p as int]@ == after[p as int]);
        if i != p {
            assert(final(rules)@[i]@ == after[i]);
        }
    } else if r is Some {
        assert(final(rules)@[i]@ == after[i]);
        assert(after == before);
    }
}

/// Deleting takes out the rule that is edited, and no other; a draft that was never saved takes out
/// none.
pub proof fn law_deleting_takes_out_one_rule(
    editor: &mut RuleEditor,
    rules: &mut Vec<Rule>,
    r: bool,
    i: int,
)
    requires
        call_ensures(RuleEditor::delete_rule, (editor, rules), r),
        0 <= i < old(rules)@.len(),
    ensures
        r <==> old(editor).selected is Some,
        old(editor).selected is None || old(editor).selected->0 >= old(rules)@.len()
            ==> final(rules)@.len() == old(rules)@.len() && final(rules)@[i]@ == old(rules)@[i]@,
        old(editor).selected is Some && old(editor).selected->0 < old(rules)@.len() ==> {
            &&& final(rules)@.len() == old(rules)@.len() - 1
            &&& i < old(editor).selected->0 ==> final(rules)@[i]@ == old(rules)@[i]@
            &&& i > old(editor).selected->0 ==> final(rules)@[i - 1]@ == old(rules)@[i]@
        },
        old(editor).selected is Some ==> final(editor)@ == old(editor)@,
{
    let before = rule_views(old(rules)@);
    let after = rule_views(final(rules)@);
    assert(after.len() == final(rules)@.len());
    assert(before.len() == old(rules)@.len());
    assert(before[i] == old(rules)@[i]@);
    if i < after.len() {
        assert(after[i] == final(rules)@[i]@);
    }
    if 0 < i <= after.len() {
        assert(after[i - 1] == final(rules)@[i - 1]@);
    }
}

/// Once it is stored, a saved draft edits the rule at its place and a deleted one makes room for a
/// blank one; where storing failed, the draft stays and the error is told.
pub proof fn law_storing_is_told(
    saved: &mut RuleEditor,
    deleted: &mut RuleEditor,
    index: usize,
    result: Result<usize, String>,
)
    requires
        call_ensures(RuleEditor::rule_saved, (saved, index, result), ()),
        call_ensures(RuleEditor::rule_deleted, (deleted, result), ()),
    ensures
        final(saved)@.id == old(saved)@.id,
        final(saved)@.pattern == old(saved)@.pattern,
        final(saved)@.actions == old(saved)@.actions,
        final(saved)@.enabled == old(saved)@.enabled,
        result is Ok ==> final(saved).selected == Some(index),
        result is Err ==> final(saved).selected == old(saved).selected,
        result matches Err(error) ==> is_suffix(error@, final(saved).result@) && is_suffix(
            error@,
            final(deleted).result@,
        ),
        result is Err ==> final(deleted)@.id == old(deleted)@.id && final(deleted).selected
            == old(deleted).selected,
        result is Ok ==> final(deleted).selected is None && final(deleted).id@.len() == 0
            && final(deleted).pattern@.len() == 0 && final(deleted)@.actions.len() == 0,
        (result matches Ok(n) && n == 0) ==> final(saved).result@ == "规则已保存并立即生效"@
            && final(deleted).result@ == "规则已删除并立即生效"@,
        (result matches Ok(n) && n > 0) ==> final(saved).result@ == "规则已保存并立即生效"@
            + "；已刷新 "@ + digits(result->Ok_0 as nat) + " 条现有连接"@ && final(deleted).result@
            == "规则已删除并立即生效"@ + "；已刷新 "@ + digits(result->Ok_0 as nat)
            + " 条现有连接"@,
{
    if result is Err {
        let e = result->Err_0@;
        let a = final(saved).result@;
        let b = final(deleted).result@;
        assert(a.subrange(a.len() - e.len(), a.len() as int) =~= e);
        assert(b.subrange(b.len() - e.len(), b.len() as int) =~= e);
    }
}

/// A URL is tried as a request to read it: its host in lower case, the whole of it, and its path with
/// the query.
pub proof fn law_url_is_tried_as_a_request(parts: UrlParts, r: RequestFacts)
    requires
        call_ensures(url_facts, (parts,), r),
    ensures
        r.method@ == "GET"@,
        r.headers@.len() == 0,
        r.url@ == parts.text@,
        parts.host matches Some(host) ==> r.host@ == lowercase(host@),
        parts.query is None ==> r.path@ == parts.path@,
        parts.query matches Some(query) ==> r.path@ == parts.path@ + "?"@ + query@,
{
    assert(r@.headers.len() == r.headers@.len());
}

/// What is said of a test: whether the rule would block, or why it cannot be told.
pub proof fn law_test_tells_the_verdict(verdict: Result<bool, RuleError>, r: String)
    requires
        call_ensures(test_message, (verdict,), r),
    ensures
        verdict == Ok::<bool, RuleError>(true) ==> r@ == "测试结果：命中，将被拦截"@,
        verdict == Ok::<bool, RuleError>(false) ==> r@ == "测试结果：未命中，将放行"@,
        verdict is Err ==> is_prefix("测试失败："@, r@),
{
    if verdict is Err {
        let head = "测试失败："@;
        assert(r@.subrange(0, head.len() as int) =~= head);
    }
}

/// A draft that looks for a part of a text is tried on the text of its target in the URL; nothing but
/// what the editor says changes.
pub proof fn law_draft_is_tried_on_the_url(
    editor: &mut RuleEditor,
    input: &str,
    text: Seq<char>,
)
    requires
        call_ensures(RuleEditor::test_rule, (editor, input), ()),
        old(editor).enabled,
        old(editor).mode == MatchMode::Contains,
        trim(old(editor).id@).len() > 0,
        trim(old(editor).pattern@).len() > 0,
        url_error(trim(input@)) is None,
        old(editor).target == MatchTarget::Host ==> text == lowercase(
            or_empty(url_host(trim(input@))),
        ),
        old(editor).target == MatchTarget::Url ==> text == url_text(trim(input@)),
        old(editor).target == MatchTarget::Path ==> text == (match url_query(trim(input@)) {
            Some(query) => url_path(trim(input@)) + "?"@ + query,
            None => url_path(trim(input@)),
        }),
    ensures
        final(editor)@ == (EditorView { result: final(editor).result@, ..old(editor)@ }),
        old(editor).target == MatchTarget::Header ==> final(editor).result@
            == "Header 规则需要通过实际请求验证"@,
        old(editor).target != MatchTarget::Header ==> final(editor).result@ == (if is_part(
            lowercase(trim(old(editor).pattern@)),
            lowercase(text),
        ) {
            "测试结果：命中，将被拦截"@
        } else {
            "测试结果：未命中，将放行"@
        }),
{
    let url = trim(input@);
    let said = final(editor).result@;
    let rule = described_rule(old(editor)@);
    let facts = facts_for_url(url_host(url), url_path(url), url_query(url), url_text(url));
    let draft = choose|draft: Result<RuleView, DraftErrorView>|
        {
            &&& #[trigger] may_draft(old(editor)@, draft)
            &&& match draft {
                Err(error) => said == "规则无效："@ + draft_error_text(error),
                Ok(rule) => if rule.target == MatchTarget::Header {
                    said == "Header 规则需要通过实际请求验证"@
                } else {
                    match url_error(url) {
                        Some(detail) => said == "测试 URL 无效："@ + detail,
                        None => exists|verdict: Result<bool, RuleErrorView>|
                            {
                                &&& #[trigger] finds(rule, facts, verdict)
                                &&& said == test_text(verdict)
                            },
                    }
                },
            }
        };
    law_sound_draft_is_accepted(old(editor)@, draft);
    if rule.target != MatchTarget::Header {
        let verdict = choose|verdict: Result<bool, RuleErrorView>|
            {
                &&& #[trigger] finds(rule, facts, verdict)
                &&& said == test_text(verdict)
            };
        let readings = choose|readings: Seq<bool>|
            readings.len() == candidates(rule, facts).len() && verdict == #[trigger] rule_verdict(
                rule,
                facts,
                readings,
            );
        reveal_strlit("GET");
        reveal_strlit("CONNECT");
        assert(candidates(rule, facts) =~= seq![text]);
        assert(readings =~= seq![readings[0]]);
        law_one_text_is_compared_in_the_mode_of_the_rule(rule, facts, readings[0], text);
    }
}

} // verus!
