//! Application-protocol detectors that refine what an HTTP request is
//! carrying: generic RPC paths, JSON-RPC, XML-RPC, SOAP, and Socket.IO.

pub mod jsonrpc;
pub mod rpc;
pub mod soap;
pub mod socketio;
pub mod xmlrpc;
