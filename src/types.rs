use vstd::prelude::*;

verus! {

/// Where an asset of the facility stands.
#[derive(Clone, Copy, Debug, PartialEq, Eq, Structural)]
pub enum AssetState {
    /// Free: held by the facility and available for a paydown.
    Inventory,
    /// Reserved by a pledge that has not been executed.
    PledgeProposed,
    /// Reserved by a paydown that has not been executed; still held by the facility.
    PaydownProposed,
}

#[derive(Clone, Copy, Debug, PartialEq, Eq, Structural)]
pub enum PledgeState {
    Proposed,
    Accepted,
    Executed,
    Closed,
    Cancelled,
}

#[derive(Clone, Copy, Debug, PartialEq, Eq, Structural)]
pub enum PaydownState {
    Proposed,
    Accepted,
    Executed,
    Cancelled,
}

#[derive(Clone, Copy, Debug, PartialEq, Eq, Structural)]
pub enum PaydownKind {
    PaydownOnly,
    PaydownAndSell,
}

#[derive(Clone, Copy, Debug, PartialEq, Eq, Structural)]
pub enum ContractParty {
    Warehouse,
    Buyer,
}

/// A permission that an account may hold on a marker.
#[derive(Clone, Copy, Debug, PartialEq, Eq, Structural)]
pub enum MarkerAccess {
    Admin,
    Burn,
    Delete,
    Deposit,
    Mint,
    Transfer,
    Unspecified,
    Withdraw,
}

impl View for AssetState {
    type V = AssetState;

    open spec fn view(&self) -> AssetState {
        *self
    }
}

/// The ids of a list of strings, as character sequences.
pub open spec fn id_views(v: Seq<String>) -> Seq<Seq<char>> {
    v.map_values(|s: String| s@)
}

/// An asset id together with its recorded state.
#[derive(Clone, Debug, PartialEq, Eq)]
pub struct Asset {
    pub id: String,
    pub state: AssetState,
}

#[derive(Clone, Debug, PartialEq, Eq)]
pub struct Pledge {
    pub id: String,
    pub assets: Vec<String>,
    pub total_advance: u64,
    pub asset_marker_denom: String,
    pub state: PledgeState,
}

/// A pledge as a mathematical value.
pub struct PledgeView {
    pub id: Seq<char>,
    pub assets: Seq<Seq<char>>,
    pub total_advance: u64,
    pub asset_marker_denom: Seq<char>,
    pub state: PledgeState,
}

impl View for Pledge {
    type V = PledgeView;

    open spec fn view(&self) -> PledgeView {
        PledgeView {
            id: self.id@,
            assets: id_views(self.assets@),
            total_advance: self.total_advance,
            asset_marker_denom: self.asset_marker_denom@,
            state: self.state,
        }
    }
}

#[derive(Clone, Debug, PartialEq, Eq)]
pub struct PaydownSaleInfo {
    pub buyer: String,
    pub price: u64,
}

/// The parties that have accepted a paydown: a set over `ContractParty`.
#[derive(Clone, Copy, Debug, PartialEq, Eq, Structural)]
pub struct PartiesAccepted {
    pub warehouse: bool,
    pub buyer: bool,
}

#[derive(Clone, Debug, PartialEq, Eq)]
pub struct Paydown {
    pub id: String,
    pub assets: Vec<String>,
    pub total_paydown: u64,
    pub kind: PaydownKind,
    pub state: PaydownState,
    pub parties_accepted: PartiesAccepted,
    pub sale_info: Option<PaydownSaleInfo>,
}

/// A paydown as a mathematical value.
pub struct PaydownView {
    pub id: Seq<char>,
    pub assets: Seq<Seq<char>>,
    pub total_paydown: u64,
    pub kind: PaydownKind,
    pub state: PaydownState,
    pub parties_accepted: PartiesAccepted,
    pub sale_info: Option<PaydownSaleInfo>,
}

impl View for Paydown {
    type V = PaydownView;

    open spec fn view(&self) -> PaydownView {
        PaydownView {
            id: self.id@,
            assets: id_views(self.assets@),
            total_paydown: self.total_paydown,
            kind: self.kind,
            state: self.state,
            parties_accepted: self.parties_accepted,
            sale_info: self.sale_info,
        }
    }
}

/// The static configuration of a facility.
#[derive(Clone, Debug, PartialEq, Eq)]
pub struct Facility {
    pub originator: String,
    pub warehouse: String,
    pub escrow_marker: String,
    pub marker_denom: String,
    pub stablecoin_denom: String,
    pub advance_rate: String,
}

/// An amount of one denomination, as attached to a call.
#[derive(Clone, Debug, PartialEq, Eq)]
pub struct Coin {
    pub denom: String,
    pub amount: u128,
}

/// The permissions that one account holds on a marker.
#[derive(Clone, Debug, PartialEq, Eq)]
pub struct AccessGrant {
    pub address: String,
    pub permissions: Vec<MarkerAccess>,
}

/// A snapshot of a marker account: its address, its denomination and its grants.
#[derive(Clone, Debug, PartialEq, Eq)]
pub struct Marker {
    pub address: String,
    pub denom: String,
    pub permissions: Vec<AccessGrant>,
}

/// A settlement instruction for the surrounding system to carry out.
#[derive(Clone, Debug, PartialEq, Eq)]
pub enum SettlementMsg {
    CreateMarker { supply: u128, denom: String, restricted: bool },
    GrantMarkerAccess { denom: String, address: String, permissions: Vec<MarkerAccess> },
    FinalizeMarker { denom: String },
    ActivateMarker { denom: String },
    WithdrawCoins { marker_denom: String, amount: u128, denom: String, recipient: String },
    TransferMarkerCoins { amount: u128, denom: String, from: String, to: String },
    CancelMarker { denom: String },
    DestroyMarker { denom: String },
    BankSend { to_address: String, amount: u128, denom: String },
}

/// A settlement instruction as a mathematical value.
pub enum MsgView {
    CreateMarker { supply: u128, denom: Seq<char>, restricted: bool },
    GrantMarkerAccess { denom: Seq<char>, address: Seq<char>, permissions: Seq<MarkerAccess> },
    FinalizeMarker { denom: Seq<char> },
    ActivateMarker { denom: Seq<char> },
    WithdrawCoins { marker_denom: Seq<char>, amount: u128, denom: Seq<char>, recipient: Seq<char> },
    TransferMarkerCoins { amount: u128, denom: Seq<char>, from: Seq<char>, to: Seq<char> },
    CancelMarker { denom: Seq<char> },
    DestroyMarker { denom: Seq<char> },
    BankSend { to_address: Seq<char>, amount: u128, denom: Seq<char> },
}

impl View for SettlementMsg {
    type V = MsgView;

    open spec fn view(&self) -> MsgView {
        match self {
            SettlementMsg::CreateMarker { supply, denom, restricted } => MsgView::CreateMarker {
                supply: *supply,
                denom: denom@,
                restricted: *restricted,
            },
            SettlementMsg::GrantMarkerAccess { denom, address, permissions } =>
                MsgView::GrantMarkerAccess {
                denom: denom@,
                address: address@,
                permissions: permissions@,
            },
            SettlementMsg::FinalizeMarker { denom } => MsgView::FinalizeMarker { denom: denom@ },
            SettlementMsg::ActivateMarker { denom } => MsgView::ActivateMarker { denom: denom@ },
            SettlementMsg::WithdrawCoins { marker_denom, amount, denom, recipient } =>
                MsgView::WithdrawCoins {
                marker_denom: marker_denom@,
                amount: *amount,
                denom: denom@,
                recipient: recipient@,
            },
            SettlementMsg::TransferMarkerCoins { amount, denom, from, to } =>
                MsgView::TransferMarkerCoins {
                amount: *amount,
                denom: denom@,
                from: from@,
                to: to@,
            },
            SettlementMsg::CancelMarker { denom } => MsgView::CancelMarker { denom: denom@ },
            SettlementMsg::DestroyMarker { denom } => MsgView::DestroyMarker { denom: denom@ },
            SettlementMsg::BankSend { to_address, amount, denom } => MsgView::BankSend {
                to_address: to_address@,
                amount: *amount,
                denom: denom@,
            },
        }
    }
}

/// The views of a list of instructions.
pub open spec fn msg_views(msgs: Seq<SettlementMsg>) -> Seq<MsgView> {
    msgs.map_values(|m: SettlementMsg| m@)
}

/// The operation that a state error refers to.
#[derive(Clone, Copy, Debug, PartialEq, Eq, Structural)]
pub enum LedgerAction {
    AcceptPledge,
    CancelPledge,
    ExecutePledge,
    AcceptPaydown,
    CancelPaydown,
    ExecutePaydown,
}

#[derive(Clone, Debug, PartialEq, Eq)]
pub enum ContractError {
    PledgeNotFound { id: String },
    PaydownNotFound { id: String },
    AssetMarkerNotFound { pledge_id: String },
    PledgeAlreadyExists { id: String },
    PaydownAlreadyExists { id: String },
    AssetsAlreadyPledged,
    AssetsNotInInventory,
    MissingEscrowMarkerGrant,
    Unauthorized,
    PaydownPartyAlreadyAccepted { party: ContractParty },
    StateError { action: LedgerAction },
    MissingPledgeAdvanceFunds,
    InsufficientPledgeAdvanceFunds {
        need: u128,
        need_denom: String,
        received: u128,
        received_denom: String,
    },
    MissingPaydownFunds,
    InsufficientPaydownFunds {
        need: u128,
        need_denom: String,
        received: u128,
        received_denom: String,
    },
    MissingPurchaseFunds,
    InsufficientPurchaseFunds {
        need: u128,
        need_denom: String,
        received: u128,
        received_denom: String,
    },
}

} // verus!
