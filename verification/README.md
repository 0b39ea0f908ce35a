# i12377_api

A service that queries the status of a report on 12377.cn by its retrieval
code: it fetches a math captcha, reads it with an OCR model, submits the
answer and retries on rejected captchas.

- `src/` is the verified library (Verus): captcha arithmetic and CTC
  collapse (`captcha`), decimal formatting/parsing and trimming (`text`), the
  cookie jar and `Set-Cookie` reading (`cookies`), upstream response types,
  lenient integers and the `guestKey` (`client`), the retry state machine and
  response dispatch (`orchestrator`), API errors (`error`), configuration
  (`config`), request validation (`routes`) and response bodies (`models`).
- `app/` is the binary: axum routes, the reqwest client, the ONNX OCR model,
  environment reading and JSON (serde) forms of the library's types.
- `tests/` runs the library on concrete values.
