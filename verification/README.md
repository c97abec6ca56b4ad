# bitshit

The verified core of the 1BitShit CPU runtime, a local inference runtime for
GGUF (Llama, BitNet) and ONNX models.

- `src/` is the library, proved with Verus: character and path algebra
  (`text`, `paths`), the model store and its naming rules (`model_store`),
  Hugging Face listings and manifests (`hf_hub`, `manifest`), the runtime
  environment (`environment`), native library lookup (`kernel_loader`,
  `dispatch`), driver and kernel provisioning (`drivers`, `json`), start-up
  decisions and release versions (`bootstrapper`, `dev_sync`), model choice
  (`catalog`), the model hub's details screen (`details`) and the streaming
  trigger filter (`stream`).
- `app/` is the `bitshit` command line: file system, network and FFI work
  around the library.
- `tests/` runs the library on concrete values.
