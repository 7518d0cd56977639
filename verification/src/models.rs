//! Marketplace data shapes that are plain values.

use vstd::prelude::*;

verus! {

/// Request to register a user.
#[derive(Debug, Clone, PartialEq, Eq)]
pub struct RegisterUserRequest {
    pub email: String,
    pub username: String,
    pub password: String,
    pub first_name: String,
    pub last_name: String,
}

/// Request to log in.
#[derive(Debug, Clone, PartialEq, Eq)]
pub struct LoginRequest {
    pub email: String,
    pub password: String,
}

/// The lifecycle of an order.
#[derive(Debug, Clone, Copy, PartialEq, Eq, Structural)]
pub enum OrderStatus {
    Pending,
    Processing,
    Shipped,
    Delivered,
    Cancelled,
    Refunded,
}

/// How an order is paid.
#[derive(Debug, Clone, Copy, PartialEq, Eq, Structural)]
pub enum PaymentMethod {
    CreditCard,
    DebitCard,
    PayPal,
    ApplePay,
    GooglePay,
}

/// A postal address.
#[derive(Debug, Clone, PartialEq, Eq)]
pub struct Address {
    pub street: String,
    pub city: String,
    pub state: String,
    pub zip_code: String,
    pub country: String,
}

/// A catalog category.
#[derive(Debug, Clone, PartialEq, Eq)]
pub struct Category {
    pub id: String,
    pub name: String,
    pub description: String,
    pub parent_id: Option<String>,
    pub icon: String,
    pub is_active: bool,
}

/// One page of search results.
#[derive(Debug, Clone, PartialEq, Eq)]
pub struct SearchResult<T> {
    pub items: Vec<T>,
    pub total_count: u64,
    pub page: u32,
    pub limit: u32,
    pub has_more: bool,
}

impl<T> SearchResult<T> {
    /// A page with its `has_more` mark: whether rows lie beyond it.
    pub fn new(items: Vec<T>, total_count: u64, page: u32, limit: u32) -> (r: SearchResult<T>)
        ensures
            r.items == items,
            r.total_count == total_count,
            r.page == page,
            r.limit == limit,
            r.has_more == (((page * limit) as u64) < total_count),
    {
        proof {
            assert((page as u64) * (limit as u64) <= 0xffff_ffffu64 * 0xffff_ffffu64)
                by (nonlinear_arith)
                requires
                    page <= 0xffff_ffffu64 && limit <= 0xffff_ffffu64,
            ;
        }
        let product: u64 = (page as u64) * (limit as u64);
        let has_more = product < total_count;
        SearchResult { items, total_count, page, limit, has_more }
    }
}

} // verus!
