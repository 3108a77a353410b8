use vstd::prelude::*;
use crate::node::Node;
use crate::stream::Source;

verus! {

/// The buffer size a configuration starts with.
pub const DEFAULT_BUFFER_SIZE: usize = 256;

/// Where a websocket client connects and what it sends first.
#[derive(Clone, Debug)]
pub struct WebSocketClientConfig {
    pub url: String,
    pub init_messages: Vec<String>,
    pub buffer_size: usize,
}

/// Builds a `WebSocketClientConfig` step by step.
pub struct WebSocketClientConfigBuilder {
    url: String,
    init_messages: Vec<String>,
    buffer_size: usize,
}

impl WebSocketClientConfigBuilder {
    pub closed spec fn url(&self) -> Seq<char> {
        self.url@
    }

    pub closed spec fn init_messages(&self) -> Seq<String> {
        self.init_messages@
    }

    pub closed spec fn buffer_size(&self) -> usize {
        self.buffer_size
    }

    /// A configuration for `url` with no initial messages and the default buffer size.
    pub fn new(url: &str) -> (r: WebSocketClientConfigBuilder)
        ensures
            r.url() == url@,
            r.init_messages() == Seq::<String>::empty(),
            r.buffer_size() == DEFAULT_BUFFER_SIZE,
    {
        WebSocketClientConfigBuilder {
            url: url.to_owned(),
            init_messages: Vec::new(),
            buffer_size: DEFAULT_BUFFER_SIZE,
        }
    }

    /// Appends one message to send right after connecting.
    pub fn with_message(self, message: &str) -> (r: WebSocketClientConfigBuilder)
        ensures
            r.url() == self.url(),
            r.init_messages().len() == self.init_messages().len() + 1,
            r.init_messages().drop_last() == self.init_messages(),
            r.init_messages().last()@ == message@,
            r.buffer_size() == self.buffer_size(),
    {
        let mut init_messages = self.init_messages;
        init_messages.push(message.to_owned());
        WebSocketClientConfigBuilder { url: self.url, init_messages, buffer_size: self.buffer_size }
    }

    /// Replaces the initial messages.
    pub fn with_messages(self, messages: Vec<String>) -> (r: WebSocketClientConfigBuilder)
        ensures
            r.url() == self.url(),
            r.init_messages() == messages@,
            r.buffer_size() == self.buffer_size(),
    {
        WebSocketClientConfigBuilder {
            url: self.url,
            init_messages: messages,
            buffer_size: self.buffer_size,
        }
    }

    /// Sets the buffer size.
    pub fn with_buffer_size(self, size: usize) -> (r: WebSocketClientConfigBuilder)
        ensures
            r.url() == self.url(),
            r.init_messages() == self.init_messages(),
            r.buffer_size() == size,
    {
        WebSocketClientConfigBuilder {
            url: self.url,
            init_messages: self.init_messages,
            buffer_size: size,
        }
    }

    /// The finished configuration.
    pub fn build(self) -> (r: WebSocketClientConfig)
        ensures
            r.url@ == self.url(),
            r.init_messages@ == self.init_messages(),
            r.buffer_size == self.buffer_size(),
    {
        WebSocketClientConfig {
            url: self.url,
            init_messages: self.init_messages,
            buffer_size: self.buffer_size,
        }
    }
}

/// One message received on a websocket connection.
pub enum WsMessage {
    Text(String),
    Binary(Vec<u8>),
    Close,
    Other,
}

/// The text that a sequence of bytes spells when it is valid UTF-8.
pub uninterp spec fn utf8_text(b: Seq<u8>) -> Option<Seq<char>>;

/// Relies on `String::from_utf8`: the bytes' text when they are valid UTF-8,
/// none otherwise; the outcome depends on the bytes alone.
#[verifier::external_body]
fn decode_utf8(bytes: Vec<u8>) -> (r: Option<String>)
    ensures
        match r {
            Option::Some(s) => utf8_text(bytes@) == Option::Some(s@),
            Option::None => utf8_text(bytes@) is None,
        },
{
    String::from_utf8(bytes).ok()
}

/// The text a received message carries, and whether the connection goes on:
/// text is kept, binary data is kept as text when it is valid UTF-8, a close
/// ends the connection, anything else carries nothing.
pub fn message_text(message: WsMessage) -> (r: (Option<String>, bool))
    ensures
        r.1 == !(message is Close),
        match message {
            WsMessage::Text(t) => r.0 == Option::Some(t),
            WsMessage::Binary(b) => match utf8_text(b@) {
                Option::Some(text) => r.0 matches Option::Some(s) && s@ == text,
                Option::None => r.0 is None,
            },
            _ => r.0 is None,
        },
{
    match message {
        WsMessage::Text(t) => (Option::Some(t), true),
        WsMessage::Binary(b) => (decode_utf8(b), true),
        WsMessage::Close => (Option::None, false),
        WsMessage::Other => (Option::None, true),
    }
}

/// A websocket producer: the text it receives is emitted into its source,
/// which runs the graph wired below it.
pub struct WebSocketClient<D> {
    pub config: WebSocketClientConfig,
    pub source: Source<String, D>,
}

impl<D: Node<String>> WebSocketClient<D> {
    pub open spec fn spec_config(&self) -> WebSocketClientConfig {
        self.config
    }

    /// A client for `config` whose source feeds `down`.
    pub fn new(config: WebSocketClientConfig, down: D) -> (r: WebSocketClient<D>)
        requires
            down.wired(),
            down.received().len() == 0,
        ensures
            r.spec_config() == config,
            r.source.down == down,
            r.source.wf(),
            r.source.emitted_items@ == Seq::<String>::empty(),
    {
        WebSocketClient { config, source: Source::new(down) }
    }

    /// The source the received text is emitted into.
    pub fn source(&self) -> (r: &Source<String, D>)
        ensures
            *r == self.source,
    {
        &self.source
    }

    /// The configuration the client connects with.
    pub fn config(&self) -> (r: &WebSocketClientConfig)
        ensures
            *r == self.spec_config(),
    {
        &self.config
    }

    /// Handles one received message: text is emitted, binary data is emitted
    /// as text when it is valid UTF-8, a close ends the connection (`false`),
    /// anything else is ignored.
    pub fn handle_message(&mut self, message: WsMessage) -> (r: bool)
        requires
            old(self).source.wf(),
        ensures
            final(self).source.wf(),
            final(self).spec_config() == old(self).spec_config(),
            r == !(message is Close),
            match message {
                WsMessage::Text(t) => final(self).source.emitted_items@
                    == old(self).source.emitted_items@.push(t),
                WsMessage::Binary(b) => match utf8_text(b@) {
                    Option::Some(text) => {
                        &&& final(self).source.emitted_items@.len()
                            == old(self).source.emitted_items@.len() + 1
                        &&& final(self).source.emitted_items@.drop_last()
                            == old(self).source.emitted_items@
                        &&& final(self).source.emitted_items@.last()@ == text
                    },
                    Option::None => final(self).source.emitted_items@
                        == old(self).source.emitted_items@,
                },
                _ => final(self).source.emitted_items@ == old(self).source.emitted_items@,
            },
    {
        let ghost before = self.source.emitted_items@;
        let (text, keep_going) = message_text(message);
        if let Option::Some(t) = text {
            self.source.emit(t);
            assert(self.source.emitted_items@.drop_last() =~= before);
        }
        keep_going
    }
}

} // verus!
