//! Core types for the CRS `SecRule` parser and evaluator.
use vstd::prelude::*;

use crate::net::IpNetwork;
use crate::pattern::{CompiledRegex, PhraseMatcher};

verus! {

/// A parsed `SecRule` directive.
#[derive(Debug)]
pub struct SecRule {
    pub id: u32,
    pub phase: u8,
    pub targets: Vec<CrsTarget>,
    pub operator: CrsOperator,
    /// True when the operator is negated (`!@rx ...`).
    pub negate_op: bool,
    pub transforms: Vec<CrsTransform>,
    pub actions: CrsActions,
    /// Per-target cache slot index, assigned at load time.
    pub cache_slot: Vec<Option<u16>>,
    /// True if any target in this rule requires the request body.
    pub needs_body: bool,
}

/// CRS request variable targets that can be extracted from a request.
#[derive(Debug, Clone, PartialEq, Eq)]
pub enum CrsTarget {
    Args,
    ArgsNames,
    RequestCookies,
    RequestCookiesNames,
    /// `None` = all headers (values); `Some(name)` = one header.
    RequestHeaders(Option<String>),
    RequestUri,
    RequestUriRaw,
    RequestFilename,
    RequestBasename,
    RequestMethod,
    RequestBody,
    RequestLine,
    QueryString,
    RemoteAddr,
    /// `TX:VAR_NAME` — numeric value of a transaction variable.
    Tx(String),
    /// `&TX:VAR_NAME` — 1 if set and non-zero, 0 otherwise.
    TxCount(String),
    /// `&REQUEST_HEADERS:Name` — 1 if a header with that name is present, 0 otherwise.
    RequestHeadersCount(String),
    /// `&ARGS` — total number of request arguments (query + body).
    ArgsCount,
}

/// CRS operators (regular expressions compiled at load time).
#[derive(Debug)]
pub enum CrsOperator {
    Rx(CompiledRegex),
    /// Inline phrase list, matched ASCII-case-insensitively.
    Pm(PhraseMatcher),
    /// External phrase file — key is the file name, phrases come from `DataFiles`.
    PmFromFile(String),
    DetectSQLi,
    DetectXSS,
    Lt(i64),
    Le(i64),
    Gt(i64),
    Ge(i64),
    Eq(i64),
    /// Comparison against a TX variable (e.g. `@gt %{tx.arg_name_length}`).
    GtTxRef(String),
    GeTxRef(String),
    LtTxRef(String),
    LeTxRef(String),
    EqTxRef(String),
    Contains(String),
    Streq(String),
    Within(Vec<String>),
    BeginsWith(String),
    EndsWith(String),
    IpMatch(Vec<IpNetwork>),
    ValidateUrlEncoding,
    ValidateUtf8Encoding,
}

/// Value transformations applied before the operator is tested.
#[derive(Debug, Clone, Copy, PartialEq, Eq)]
pub enum CrsTransform {
    Lowercase,
    UrlDecodeUni,
    RemoveNulls,
    Utf8ToUnicode,
    CompressWhitespace,
    NormalizePath,
    HtmlEntityDecode,
    JsDecode,
    CssDecode,
    Base64Decode,
    Trim,
    RemoveWhitespace,
    ReplaceComments,
    /// Replace the value with its character length as a decimal string.
    Length,
    /// ModSecurity `escapeSeqDecode`: C-style escapes (`\n`, `\r`, `\t`, `\xHH`, `\uHHHH`).
    EscapeSeqDecode,
}

/// Parsed actions from a `SecRule` third-argument string.
#[derive(Debug, Clone)]
pub struct CrsActions {
    pub skip_after: Option<String>,
    pub setvars: Vec<SetVarOp>,
    pub tags: Vec<String>,
    pub severity: Option<String>,
    pub is_nolog: bool,
    pub default_action: DefaultAction,
    pub is_chain: bool,
    pub is_capture: bool,
    pub is_multi_match: bool,
}

/// What the rule does on a match (in anomaly-scoring mode `Block` only scores).
#[derive(Debug, Clone, Copy, PartialEq, Eq)]
pub enum DefaultAction {
    Block,
    Pass,
}

/// A single `setvar:'...'` operation.
#[derive(Debug, Clone)]
pub struct SetVarOp {
    /// Lowercase variable name (the `tx.` prefix is stripped during parsing).
    pub var: String,
    pub op: VarOp,
    pub rhs: SetVarRhs,
}

#[derive(Debug, Clone, Copy, PartialEq, Eq)]
pub enum VarOp {
    Assign,
    IncrBy,
    DecrBy,
}

#[derive(Debug, Clone, PartialEq, Eq)]
pub enum SetVarRhs {
    Int(i64),
    /// Reference to another TX variable by (lowercase) name.
    TxRef(String),
}

/// A chain of rules that must all match before any actions fire.
#[derive(Debug)]
pub struct ChainRule {
    pub head: SecRule,
    pub members: Vec<SecRule>,
}

/// One item produced by the parser: a rule, a chain, or a skip marker.
#[derive(Debug)]
pub enum RuleItem {
    Rule(SecRule),
    Chain(ChainRule),
    /// `SecMarker "NAME"` — jump target for `skipAfter` actions.
    Marker(String),
}

/// Phrase lists loaded from `.data` files (file name → phrases).
#[derive(Debug, Clone)]
pub struct DataFiles {
    pub files: Vec<(String, Vec<String>)>,
}

/// Result of running the CRS ruleset against one request.
#[derive(Debug, Clone)]
pub struct CrsResult {
    /// Sum of `tx.inbound_anomaly_score_pl1..4`.
    pub inbound_score: i64,
    pub sql_injection_score: i64,
    pub xss_score: i64,
    pub lfi_score: i64,
    pub rce_score: i64,
    /// All `tag:` values of rules that fired (each once).
    pub matched_tags: Vec<String>,
    /// `id:` values of rules that fired.
    pub matched_rule_ids: Vec<u32>,
}


// ─── views ──────────────────────────────────────────────────────────────────

/// A `CrsTarget` with its names as character sequences.
pub enum TargetView {
    Args,
    ArgsNames,
    RequestCookies,
    RequestCookiesNames,
    RequestHeaders(Option<Seq<char>>),
    RequestUri,
    RequestUriRaw,
    RequestFilename,
    RequestBasename,
    RequestMethod,
    RequestBody,
    RequestLine,
    QueryString,
    RemoteAddr,
    Tx(Seq<char>),
    TxCount(Seq<char>),
    RequestHeadersCount(Seq<char>),
    ArgsCount,
}

impl View for CrsTarget {
    type V = TargetView;

    open spec fn view(&self) -> TargetView {
        match self {
            CrsTarget::Args => TargetView::Args,
            CrsTarget::ArgsNames => TargetView::ArgsNames,
            CrsTarget::RequestCookies => TargetView::RequestCookies,
            CrsTarget::RequestCookiesNames => TargetView::RequestCookiesNames,
            CrsTarget::RequestHeaders(n) => TargetView::RequestHeaders(
                match n {
                    Some(s) => Some(s@),
                    None => None,
                },
            ),
            CrsTarget::RequestUri => TargetView::RequestUri,
            CrsTarget::RequestUriRaw => TargetView::RequestUriRaw,
            CrsTarget::RequestFilename => TargetView::RequestFilename,
            CrsTarget::RequestBasename => TargetView::RequestBasename,
            CrsTarget::RequestMethod => TargetView::RequestMethod,
            CrsTarget::RequestBody => TargetView::RequestBody,
            CrsTarget::RequestLine => TargetView::RequestLine,
            CrsTarget::QueryString => TargetView::QueryString,
            CrsTarget::RemoteAddr => TargetView::RemoteAddr,
            CrsTarget::Tx(s) => TargetView::Tx(s@),
            CrsTarget::TxCount(s) => TargetView::TxCount(s@),
            CrsTarget::RequestHeadersCount(s) => TargetView::RequestHeadersCount(s@),
            CrsTarget::ArgsCount => TargetView::ArgsCount,
        }
    }
}

/// The views of a list of strings.
pub open spec fn strings_view(v: Seq<String>) -> Seq<Seq<char>> {
    v.map_values(|s: String| s@)
}

/// The views of an optional string.
pub open spec fn opt_view(o: Option<String>) -> Option<Seq<char>> {
    match o {
        Some(s) => Some(s@),
        None => None,
    }
}

/// A `CrsOperator` with its arguments as plain values.
pub enum OperatorView {
    Rx(Seq<char>),
    Pm(Seq<Seq<char>>),
    PmFromFile(Seq<char>),
    DetectSQLi,
    DetectXSS,
    Lt(i64),
    Le(i64),
    Gt(i64),
    Ge(i64),
    Eq(i64),
    GtTxRef(Seq<char>),
    GeTxRef(Seq<char>),
    LtTxRef(Seq<char>),
    LeTxRef(Seq<char>),
    EqTxRef(Seq<char>),
    Contains(Seq<char>),
    Streq(Seq<char>),
    Within(Seq<Seq<char>>),
    BeginsWith(Seq<char>),
    EndsWith(Seq<char>),
    IpMatch(Seq<IpNetwork>),
    ValidateUrlEncoding,
    ValidateUtf8Encoding,
}

impl View for CrsOperator {
    type V = OperatorView;

    open spec fn view(&self) -> OperatorView {
        match self {
            CrsOperator::Rx(r) => OperatorView::Rx(r@),
            CrsOperator::Pm(m) => OperatorView::Pm(m@),
            CrsOperator::PmFromFile(s) => OperatorView::PmFromFile(s@),
            CrsOperator::DetectSQLi => OperatorView::DetectSQLi,
            CrsOperator::DetectXSS => OperatorView::DetectXSS,
            CrsOperator::Lt(n) => OperatorView::Lt(*n),
            CrsOperator::Le(n) => OperatorView::Le(*n),
            CrsOperator::Gt(n) => OperatorView::Gt(*n),
            CrsOperator::Ge(n) => OperatorView::Ge(*n),
            CrsOperator::Eq(n) => OperatorView::Eq(*n),
            CrsOperator::GtTxRef(s) => OperatorView::GtTxRef(s@),
            CrsOperator::GeTxRef(s) => OperatorView::GeTxRef(s@),
            CrsOperator::LtTxRef(s) => OperatorView::LtTxRef(s@),
            CrsOperator::LeTxRef(s) => OperatorView::LeTxRef(s@),
            CrsOperator::EqTxRef(s) => OperatorView::EqTxRef(s@),
            CrsOperator::Contains(s) => OperatorView::Contains(s@),
            CrsOperator::Streq(s) => OperatorView::Streq(s@),
            CrsOperator::Within(v) => OperatorView::Within(strings_view(v@)),
            CrsOperator::BeginsWith(s) => OperatorView::BeginsWith(s@),
            CrsOperator::EndsWith(s) => OperatorView::EndsWith(s@),
            CrsOperator::IpMatch(v) => OperatorView::IpMatch(v@),
            CrsOperator::ValidateUrlEncoding => OperatorView::ValidateUrlEncoding,
            CrsOperator::ValidateUtf8Encoding => OperatorView::ValidateUtf8Encoding,
        }
    }
}

/// A `SetVarRhs` with its name as characters.
pub enum RhsView {
    Int(i64),
    TxRef(Seq<char>),
}

impl View for SetVarRhs {
    type V = RhsView;

    open spec fn view(&self) -> RhsView {
        match self {
            SetVarRhs::Int(n) => RhsView::Int(*n),
            SetVarRhs::TxRef(s) => RhsView::TxRef(s@),
        }
    }
}

/// A `SetVarOp` as plain values.
#[verifier::ext_equal]
pub struct SetVarView {
    pub var: Seq<char>,
    pub op: VarOp,
    pub rhs: RhsView,
}

impl View for SetVarOp {
    type V = SetVarView;

    open spec fn view(&self) -> SetVarView {
        SetVarView { var: self.var@, op: self.op, rhs: self.rhs@ }
    }
}

/// `CrsActions` as plain values.
#[verifier::ext_equal]
pub struct ActionsView {
    pub skip_after: Option<Seq<char>>,
    pub setvars: Seq<SetVarView>,
    pub tags: Seq<Seq<char>>,
    pub severity: Option<Seq<char>>,
    pub is_nolog: bool,
    pub default_action: DefaultAction,
    pub is_chain: bool,
    pub is_capture: bool,
    pub is_multi_match: bool,
}

impl View for CrsActions {
    type V = ActionsView;

    open spec fn view(&self) -> ActionsView {
        ActionsView {
            skip_after: opt_view(self.skip_after),
            setvars: setvars_view(self.setvars@),
            tags: strings_view(self.tags@),
            severity: opt_view(self.severity),
            is_nolog: self.is_nolog,
            default_action: self.default_action,
            is_chain: self.is_chain,
            is_capture: self.is_capture,
            is_multi_match: self.is_multi_match,
        }
    }
}

/// The views of a list of `setvar` operations.
pub open spec fn setvars_view(v: Seq<SetVarOp>) -> Seq<SetVarView> {
    v.map_values(|o: SetVarOp| o@)
}

/// The views of a list of targets.
pub open spec fn targets_view(v: Seq<CrsTarget>) -> Seq<TargetView> {
    v.map_values(|t: CrsTarget| t@)
}

/// The views of a list of rules.
pub open spec fn rules_view(v: Seq<SecRule>) -> Seq<SecRuleView> {
    v.map_values(|r: SecRule| r@)
}

/// The views of a list of rule items.
pub open spec fn items_view(v: Seq<RuleItem>) -> Seq<RuleItemView> {
    v.map_values(|r: RuleItem| r@)
}

/// A `SecRule` as plain values.
#[verifier::ext_equal]
pub struct SecRuleView {
    pub id: u32,
    pub phase: u8,
    pub targets: Seq<TargetView>,
    pub operator: OperatorView,
    pub negate_op: bool,
    pub transforms: Seq<CrsTransform>,
    pub actions: ActionsView,
    pub cache_slot: Seq<Option<u16>>,
    pub needs_body: bool,
}

impl View for SecRule {
    type V = SecRuleView;

    open spec fn view(&self) -> SecRuleView {
        SecRuleView {
            id: self.id,
            phase: self.phase,
            targets: targets_view(self.targets@),
            operator: self.operator@,
            negate_op: self.negate_op,
            transforms: self.transforms@,
            actions: self.actions@,
            cache_slot: self.cache_slot@,
            needs_body: self.needs_body,
        }
    }
}

/// A `RuleItem` as plain values.
pub enum RuleItemView {
    Rule(SecRuleView),
    Chain(SecRuleView, Seq<SecRuleView>),
    Marker(Seq<char>),
}

impl View for RuleItem {
    type V = RuleItemView;

    open spec fn view(&self) -> RuleItemView {
        match self {
            RuleItem::Rule(r) => RuleItemView::Rule(r@),
            RuleItem::Chain(c) => RuleItemView::Chain(
                c.head@,
                rules_view(c.members@),
            ),
            RuleItem::Marker(s) => RuleItemView::Marker(s@),
        }
    }
}

} // verus!
