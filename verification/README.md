# chatgpt_bot

A chat bot that answers WeChat messages relayed by the KP robot, either with
canned replies or with answers of the OpenAI chat completion service.

- `src/` is the verified library: text operations (`text`), the key/list
  table behind the reply settings and the answer cache (`table`), the
  settings (`config`), errors (`error`), the message types (`model`), the
  handling of robot events and text messages (`handler`), and the answer
  cache and answer processing (`openai`).
- `app/` is the HTTP server around it: configuration loading, the axum
  routes, the websocket endpoint, and the HTTP calls made with curl.
- `tests/` runs the library on concrete inputs.
